//! The catalog table's shape and the decoding of its rows.
//!
//! Every database file carries a catalog table rooted at page 1 whose
//! rows name the schema objects: each row is type, name, table name,
//! root page and SQL text.

use vstd::prelude::*;
use vstd::slice::slice_subrange;

use crate::errors::DBError;
use crate::header::DBHeader;
use crate::page::{
    parse_page, spec_page_type_byte, spec_parse_page, PageCell, PageType, SpecPageCell,
};
use crate::pager::Pager;
use crate::record::{
    read_value, spec_parse_serial_types, spec_read_value, spec_span_left, spec_type_size,
    SerialType, Value,
};
use crate::varint::{read_varint_at, spec_decode_varint};

verus! {

/// The storage class a column declares.
#[derive(Debug, Clone, Copy, PartialEq, Eq, Structural)]
pub enum ColumnType {
    /// The NULL value.
    NULL,
    /// Signed integer, stored in 0 to 8 bytes by magnitude.
    Integer,
    /// 8-byte IEEE 754 floating point.
    Real,
    /// Text in the database's text encoding.
    Text,
    /// Bytes stored exactly as given.
    Blob,
}

/// One column of a table: its name and storage class.
#[derive(Debug, Clone)]
pub struct Column {
    pub name: String,
    pub column_type: ColumnType,
}

/// A table: where its B-tree is rooted and what columns it has.
#[derive(Debug, Clone)]
pub struct Table {
    pub root_page: usize,
    pub name: String,
    pub columns: Vec<Column>,
}

impl Table {
    /// The built-in catalog table: rooted at page 1, with the five
    /// fixed columns every database file gives it.
    pub fn get_master_table() -> (t: Table)
        ensures
            t.root_page == 1,
            t.name@ == "sqlite_master"@,
            t.columns@.len() == 5,
            t.columns@[0].name@ == "type"@ && t.columns@[0].column_type == ColumnType::Text,
            t.columns@[1].name@ == "name"@ && t.columns@[1].column_type == ColumnType::Text,
            t.columns@[2].name@ == "table_name"@ && t.columns@[2].column_type
                == ColumnType::Text,
            t.columns@[3].name@ == "root_page"@ && t.columns@[3].column_type
                == ColumnType::Integer,
            t.columns@[4].name@ == "sql"@ && t.columns@[4].column_type == ColumnType::Text,
    {
        let mut columns: Vec<Column> = Vec::new();
        columns.push(Column { name: "type".to_owned(), column_type: ColumnType::Text });
        columns.push(Column { name: "name".to_owned(), column_type: ColumnType::Text });
        columns.push(Column { name: "table_name".to_owned(), column_type: ColumnType::Text });
        columns.push(Column { name: "root_page".to_owned(), column_type: ColumnType::Integer });
        columns.push(Column { name: "sql".to_owned(), column_type: ColumnType::Text });
        Table { root_page: 1, name: "sqlite_master".to_owned(), columns }
    }
}

/// One row of the catalog table, decoded.
#[derive(Debug, Clone, PartialEq)]
pub struct SQLiteSchema {
    /// What kind of object the row names: a table, index, view or
    /// trigger.
    pub schema_type: String,
    /// The object's name.
    pub name: String,
    /// The table the object belongs to.
    pub table_name: String,
    /// The page number the object's B-tree is rooted at.
    pub root_page: i64,
    /// The SQL text that created the object, folded to lower case.
    pub sql: String,
}

/// The mathematical shape of a [`SQLiteSchema`].
pub struct SpecSchema {
    pub schema_type: Seq<char>,
    pub name: Seq<char>,
    pub table_name: Seq<char>,
    pub root_page: i64,
    pub sql: Seq<char>,
}

impl View for SQLiteSchema {
    type V = SpecSchema;

    open spec fn view(&self) -> SpecSchema {
        SpecSchema {
            schema_type: self.schema_type@,
            name: self.name@,
            table_name: self.table_name@,
            root_page: self.root_page,
            sql: self.sql@,
        }
    }
}

/// What `str::to_lowercase` returns for the given characters.
pub uninterp spec fn lower_of(s: Seq<char>) -> Seq<char>;

/// Folds a string to lower case.
///
/// Relies on str::to_lowercase: the result depends on the input's
/// characters alone.
#[verifier::external_body]
fn lowercase(s: &str) -> (r: String)
    ensures
        r@ == lower_of(s@),
{
    s.to_lowercase()
}

/// The classes a catalog row's first five serial types must have:
/// three texts, one integer-valued class, and the SQL text.
pub open spec fn spec_schema_classes_ok(types: Seq<SerialType>) -> bool {
    &&& types.len() >= 5
    &&& types[0] matches SerialType::Text(_)
    &&& types[1] matches SerialType::Text(_)
    &&& types[2] matches SerialType::Text(_)
    &&& spec_integer_class(types[3])
    &&& types[4] matches SerialType::Text(_)
}

/// The serial-type classes whose value is an integer.
pub open spec fn spec_integer_class(t: SerialType) -> bool {
    ||| t matches SerialType::I8
    ||| t matches SerialType::I16
    ||| t matches SerialType::I24
    ||| t matches SerialType::I32
    ||| t matches SerialType::I48
    ||| t matches SerialType::I64
    ||| t matches SerialType::Int0
    ||| t matches SerialType::Int1
}

/// What decoding a catalog row at `off` yields: the row's first five
/// values (text, text, text, integer, text), the SQL text folded to
/// lower case, and how many bytes the record occupied, header included.
pub open spec fn spec_read_schema(s: Seq<u8>, off: int) -> Result<(SpecSchema, int), DBError> {
    if off < 0 || off > s.len() {
        Err(DBError::TruncatedPage)
    } else {
        let payload = s.subrange(off, s.len() as int);
        match spec_decode_varint(payload, 0) {
            Err(e) => Err(e),
            Ok(p) => if p.0 < p.1 || p.0 > payload.len() {
                Err(DBError::TruncatedPage)
            } else {
                match spec_parse_serial_types(payload, p.1, p.0 as int) {
                    Err(e) => Err(e),
                    Ok(types) => if !spec_schema_classes_ok(types) {
                        Err(DBError::InvalidPayloadEncoding)
                    } else {
                        let o0 = p.0 as int;
                        let o1 = o0 + spec_type_size(types[0]);
                        let o2 = o1 + spec_type_size(types[1]);
                        let o3 = o2 + spec_type_size(types[2]);
                        let o4 = o3 + spec_type_size(types[3]);
                        let o5 = o4 + spec_type_size(types[4]);
                        match spec_read_value(payload, o0, types[0]) {
                            Err(e) => Err(e),
                            Ok(v0) => match spec_read_value(payload, o1, types[1]) {
                                Err(e) => Err(e),
                                Ok(v1) => match spec_read_value(payload, o2, types[2]) {
                                    Err(e) => Err(e),
                                    Ok(v2) => match spec_read_value(payload, o3, types[3]) {
                                        Err(e) => Err(e),
                                        Ok(v3) => match spec_read_value(payload, o4, types[4]) {
                                            Err(e) => Err(e),
                                            Ok(v4) => Ok(
                                                (
                                                    SpecSchema {
                                                        schema_type: v0->Text_0,
                                                        name: v1->Text_0,
                                                        table_name: v2->Text_0,
                                                        root_page: v3->Integer_0,
                                                        sql: lower_of(v4->Text_0),
                                                    },
                                                    o5,
                                                ),
                                            ),
                                        },
                                    },
                                },
                            },
                        }
                    },
                }
            },
        }
    }
}

/// Decodes the catalog row whose cell payload starts at `*offset`, and
/// advances `*offset` past the record just read: its header and the
/// five values' bytes.
///
/// The record must open with five values of the catalog's shape: three
/// text columns, an integer root page, and the SQL text, which is
/// returned folded to lower case. On failure the offset is not moved.
pub fn read_sqlite_schema_cell_payload(buffer: &[u8], offset: &mut usize) -> (r: Result<
    SQLiteSchema,
    DBError,
>)
    ensures
        match r {
            Ok(schema) => spec_read_schema(buffer@, *old(offset) as int) matches Ok(p) && p.0
                == schema@ && *final(offset) == *old(offset) + p.1,
            Err(e) => spec_read_schema(buffer@, *old(offset) as int) == Err::<
                (SpecSchema, int),
                DBError,
            >(e) && *final(offset) == *old(offset),
        },
{
    let start = *offset;
    let len = buffer.len();
    if start > len {
        return Err(DBError::TruncatedPage);
    }
    let payload = slice_subrange(buffer, start, len);
    let ghost s = payload@;
    let plen = payload.len();

    let (header_size, header_varint_len) = match read_varint_at(payload, 0) {
        Ok(p) => p,
        Err(e) => {
            return Err(e);
        },
    };
    if header_size < header_varint_len as u64 || header_size > plen as u64 {
        return Err(DBError::TruncatedPage);
    }
    let end = header_size as usize;

    // The serial types named in the record's header.
    let mut types: Vec<SerialType> = Vec::new();
    let mut off = header_varint_len;
    proof {
        match spec_parse_serial_types(s, off as int, end as int) {
            Ok(rest) => {
                assert(Seq::<SerialType>::empty() + rest =~= rest);
            },
            Err(_) => {},
        }
    }
    while off < end
        invariant
            off <= s.len(),
            end <= s.len(),
            s.len() <= usize::MAX,
            s == payload@,
            start == *old(offset),
            *offset == *old(offset),
            start <= buffer@.len(),
            buffer@.len() <= usize::MAX,
            s == buffer@.subrange(start as int, buffer@.len() as int),
            spec_decode_varint(s, 0) == Ok::<(nat, int), DBError>(
                (end as nat, header_varint_len as int),
            ),
            header_varint_len <= end,
            match spec_parse_serial_types(s, off as int, end as int) {
                Ok(rest) => spec_parse_serial_types(s, header_varint_len as int, end as int)
                    == Ok::<Seq<SerialType>, DBError>(types@ + rest),
                Err(e) => spec_parse_serial_types(s, header_varint_len as int, end as int)
                    == Err::<Seq<SerialType>, DBError>(e),
            },
        decreases spec_span_left(off as int, end as int),
    {
        let (code, n) = match read_varint_at(payload, off) {
            Ok(p) => p,
            Err(e) => {
                return Err(e);
            },
        };
        let t = match SerialType::from_code(code) {
            Ok(t) => t,
            Err(e) => {
                return Err(e);
            },
        };
        let ghost old_types = types@;
        types.push(t);
        proof {
            match spec_parse_serial_types(s, off + n, end as int) {
                Ok(rest) => {
                    assert(old_types + (seq![t] + rest) =~= types@ + rest);
                },
                Err(_) => {},
            }
        }
        off = off + n;
    }
    proof {
        assert(spec_parse_serial_types(s, off as int, end as int) == Ok::<Seq<SerialType>, DBError>(
            Seq::empty(),
        ));
        assert(types@ + Seq::<SerialType>::empty() =~= types@);
    }

    // The row must have the catalog's five column classes.
    if types.len() < 5 {
        return Err(DBError::InvalidPayloadEncoding);
    }
    let ok0 = match types[0] {
        SerialType::Text(_) => true,
        _ => false,
    };
    let ok1 = match types[1] {
        SerialType::Text(_) => true,
        _ => false,
    };
    let ok2 = match types[2] {
        SerialType::Text(_) => true,
        _ => false,
    };
    let ok3 = match types[3] {
        SerialType::Text(_) => false,
        SerialType::Blob(_) => false,
        SerialType::Null => false,
        SerialType::F64 => false,
        _ => true,
    };
    let ok4 = match types[4] {
        SerialType::Text(_) => true,
        _ => false,
    };
    if !(ok0 && ok1 && ok2 && ok3 && ok4) {
        return Err(DBError::InvalidPayloadEncoding);
    }

    // The five values, back to back after the header.
    let mut voff = end;
    let (v0, s0) = match read_value(payload, voff, types[0]) {
        Ok(p) => p,
        Err(e) => {
            return Err(e);
        },
    };
    voff = voff + s0;
    let (v1, s1) = match read_value(payload, voff, types[1]) {
        Ok(p) => p,
        Err(e) => {
            return Err(e);
        },
    };
    voff = voff + s1;
    let (v2, s2) = match read_value(payload, voff, types[2]) {
        Ok(p) => p,
        Err(e) => {
            return Err(e);
        },
    };
    voff = voff + s2;
    let (v3, s3) = match read_value(payload, voff, types[3]) {
        Ok(p) => p,
        Err(e) => {
            return Err(e);
        },
    };
    voff = voff + s3;
    let (v4, s4) = match read_value(payload, voff, types[4]) {
        Ok(p) => p,
        Err(e) => {
            return Err(e);
        },
    };
    voff = voff + s4;

    let schema_type = match v0 {
        Value::Text(t) => t,
        _ => vstd::pervasive::unreached(),
    };
    let name = match v1 {
        Value::Text(t) => t,
        _ => vstd::pervasive::unreached(),
    };
    let table_name = match v2 {
        Value::Text(t) => t,
        _ => vstd::pervasive::unreached(),
    };
    let root_page = match v3 {
        Value::Integer(i) => i,
        _ => vstd::pervasive::unreached(),
    };
    let sql = match v4 {
        Value::Text(t) => lowercase(t.as_str()),
        _ => vstd::pervasive::unreached(),
    };

    *offset = start + voff;
    Ok(SQLiteSchema { schema_type, name, table_name, root_page, sql })
}

/// The catalog rows the cells of a table-leaf page hold, in cell
/// order; a cell of another kind contributes nothing.
pub open spec fn spec_schemas_of_cells(cells: Seq<SpecPageCell>) -> Result<Seq<SpecSchema>, DBError>
    decreases cells.len(),
{
    if cells.len() == 0 {
        Ok(Seq::empty())
    } else {
        match cells[0] {
            SpecPageCell::TableLeaf { payload, .. } => match spec_read_schema(payload, 0) {
                Err(e) => Err(e),
                Ok(p) => match spec_schemas_of_cells(cells.drop_first()) {
                    Err(e) => Err(e),
                    Ok(rest) => Ok(seq![p.0] + rest),
                },
            },
            _ => spec_schemas_of_cells(cells.drop_first()),
        }
    }
}

/// What reading the schema page yields: page 1 must be a table leaf,
/// and each of its cells decodes to one catalog row.
pub open spec fn spec_parse_schema_page(img: Seq<u8>, h: DBHeader) -> Result<
    Seq<SpecSchema>,
    DBError,
> {
    let ps = h.page_size as nat;
    if ps > img.len() {
        Err(DBError::TruncatedFile)
    } else {
        let page1 = img.subrange(0, ps as int);
        match spec_parse_page(page1, 1, h.spec_usable_size()) {
            Err(e) => Err(e),
            Ok(p) => if p.0.spec_page_type() != PageType::TableLeaf {
                Err(DBError::InvalidPageType(spec_page_type_byte(p.0.spec_page_type())))
            } else {
                spec_schemas_of_cells(p.1)
            },
        }
    }
}

/// Reads the schema page: page 1, whose cells are the catalog table's
/// rows. Returns the page size alongside them, as the pair a driver
/// needs to go on reading the file.
#[verifier::rlimit(100)]
pub fn parse_schema_page(pager: &Pager) -> (r: Result<(u32, Vec<SQLiteSchema>), DBError>)
    requires
        pager.wf(),
    ensures
        match r {
            Ok(p) => p.0 == pager.db_header.page_size && spec_parse_schema_page(
                pager.image@,
                pager.db_header,
            ) == Ok::<Seq<SpecSchema>, DBError>(p.1@.map_values(|t: SQLiteSchema| t@)),
            Err(e) => spec_parse_schema_page(pager.image@, pager.db_header) == Err::<
                Seq<SpecSchema>,
                DBError,
            >(e),
        },
{
    let ghost img = pager.image@;
    let ghost h = pager.db_header;
    let ps = pager.db_header.page_size as usize;
    let usable = pager.db_header.usable_size();
    if ps > pager.image.len() {
        return Err(DBError::TruncatedFile);
    }
    let page1 = slice_subrange(pager.image.as_slice(), 0, ps);
    let (header, cells) = match parse_page(page1, 1, usable) {
        Ok(p) => p,
        Err(e) => {
            return Err(e);
        },
    };
    let page_type = header.page_type();
    let is_leaf = match page_type {
        PageType::TableLeaf => true,
        _ => false,
    };
    if !is_leaf {
        return Err(DBError::InvalidPageType(page_type.type_byte()));
    }

    let ghost cells_spec = cells@.map_values(|c: PageCell| c@);
    let mut schemas: Vec<SQLiteSchema> = Vec::new();
    let mut i: usize = 0;
    proof {
        assert(cells_spec.skip(0) =~= cells_spec);
        match spec_schemas_of_cells(cells_spec) {
            Ok(rest) => {
                assert(Seq::<SQLiteSchema>::empty().map_values(|t: SQLiteSchema| t@) + rest
                    =~= rest);
            },
            Err(_) => {},
        }
    }
    while i < cells.len()
        invariant
            i <= cells@.len(),
            img == pager.image@,
            h == pager.db_header,
            cells_spec == cells@.map_values(|c: PageCell| c@),
            spec_parse_schema_page(img, h) == (match spec_schemas_of_cells(cells_spec) {
                Ok(rows) => Ok::<Seq<SpecSchema>, DBError>(rows),
                Err(e) => Err::<Seq<SpecSchema>, DBError>(e),
            }),
            match spec_schemas_of_cells(cells_spec.skip(i as int)) {
                Ok(rest) => spec_schemas_of_cells(cells_spec) == Ok::<Seq<SpecSchema>, DBError>(
                    schemas@.map_values(|t: SQLiteSchema| t@) + rest,
                ),
                Err(e) => spec_schemas_of_cells(cells_spec) == Err::<Seq<SpecSchema>, DBError>(e),
            },
        decreases cells@.len() - i,
    {
        proof {
            assert(cells_spec.skip(i as int)[0] == cells_spec[i as int]);
            assert(cells_spec[i as int] == cells@[i as int]@);
            assert(cells_spec.skip(i as int).drop_first() =~= cells_spec.skip(i + 1));
        }
        let ghost old_schemas = schemas@;
        match &cells[i] {
            PageCell::TableLeafCell(c) => {
                let mut cell_offset: usize = 0;
                let schema = match read_sqlite_schema_cell_payload(
                    c.payload.as_slice(),
                    &mut cell_offset,
                ) {
                    Ok(t) => t,
                    Err(e) => {
                        return Err(e);
                    },
                };
                schemas.push(schema);
                proof {
                    match spec_schemas_of_cells(cells_spec.skip(i + 1)) {
                        Ok(rest) => {
                            assert(old_schemas.map_values(|t: SQLiteSchema| t@) + (seq![schema@]
                                + rest) =~= schemas@.map_values(|t: SQLiteSchema| t@) + rest);
                        },
                        Err(_) => {},
                    }
                }
            },
            _ => {},
        }
        i = i + 1;
    }
    proof {
        assert(cells_spec.skip(i as int) =~= Seq::<SpecPageCell>::empty());
        assert(schemas@.map_values(|t: SQLiteSchema| t@) + Seq::<SpecSchema>::empty() =~= schemas@
            .map_values(|t: SQLiteSchema| t@));
    }
    Ok((pager.db_header.page_size, schemas))
}

} // verus!
