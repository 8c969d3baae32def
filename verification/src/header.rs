//! The 100-byte file header at the start of every database file.
//!
//! The header opens with a fixed 16-byte magic string, then carries the
//! page size and a run of fixed-offset metadata fields, all big-endian.

use vstd::prelude::*;

use crate::bytes::{copy_range, read_u16, read_u32, read_u8, spec_be16, spec_be32};
use crate::errors::DBError;

verus! {

/// The magic string every database file starts with: "SQLite format 3"
/// followed by a NUL byte.
pub open spec fn spec_magic() -> Seq<u8> {
    seq![
        0x53u8,
        0x51u8,
        0x4cu8,
        0x69u8,
        0x74u8,
        0x65u8,
        0x20u8,
        0x66u8,
        0x6fu8,
        0x72u8,
        0x6du8,
        0x61u8,
        0x74u8,
        0x20u8,
        0x33u8,
        0x00u8,
    ]
}

/// Whether the buffer starts with the magic string.
pub open spec fn spec_magic_ok(s: Seq<u8>) -> bool {
    s.subrange(0, 16) == spec_magic()
}

/// The raw two-byte page-size field, before the sentinel is mapped.
pub open spec fn spec_raw_page_size(s: Seq<u8>) -> nat {
    spec_be16(s, 16)
}

/// The page size with the on-disk sentinel applied: a stored 1 means 65536.
pub open spec fn spec_mapped_page_size(s: Seq<u8>) -> nat {
    if spec_raw_page_size(s) == 1 {
        65536
    } else {
        spec_raw_page_size(s)
    }
}

/// The page sizes the format allows: the powers of two in [512, 65536].
pub open spec fn spec_page_size_valid(ps: nat) -> bool {
    ||| ps == 512
    ||| ps == 1024
    ||| ps == 2048
    ||| ps == 4096
    ||| ps == 8192
    ||| ps == 16384
    ||| ps == 32768
    ||| ps == 65536
}

/// The four-byte text-encoding field.
pub open spec fn spec_text_encoding_field(s: Seq<u8>) -> nat {
    spec_be32(s, 56)
}

/// Whether the whole header passes validation: magic, page size, and
/// text encoding.
pub open spec fn spec_header_ok(s: Seq<u8>) -> bool {
    &&& spec_magic_ok(s)
    &&& spec_page_size_valid(spec_mapped_page_size(s))
    &&& 1 <= spec_text_encoding_field(s) <= 3
}

/// How text values in the file are encoded, from the header's
/// text-encoding field: 1, 2 or 3.
#[derive(Debug, Clone, Copy, PartialEq, Eq, Structural)]
pub enum TextEncoding {
    UTF8,
    UTF16le,
    UTF16be,
}

/// The encoding a given (valid) text-encoding field denotes.
pub open spec fn spec_text_encoding(n: nat) -> TextEncoding {
    if n == 1 {
        TextEncoding::UTF8
    } else if n == 2 {
        TextEncoding::UTF16le
    } else {
        TextEncoding::UTF16be
    }
}

/// The parsed 100-byte file header. Immutable once parsed; the pager
/// keeps it for the lifetime of the open database.
#[derive(Debug, Clone, PartialEq)]
pub struct DBHeader {
    /// The 16 magic bytes, as validated.
    pub header_string: Vec<u8>,
    /// Page size in bytes, after mapping the sentinel 1 to 65536.
    pub page_size: u32,
    /// File format write version: 1 legacy, 2 write-ahead log.
    pub write_version: u8,
    /// File format read version: 1 legacy, 2 write-ahead log.
    pub read_version: u8,
    /// Unused bytes reserved at the end of every page.
    pub reserved_space_size: u8,
    /// Maximum embedded payload fraction; stored as 64.
    pub max_payload_fraction: u8,
    /// Minimum embedded payload fraction; stored as 32.
    pub min_payload_fraction: u8,
    /// Leaf payload fraction; stored as 32.
    pub leaf_payload_fraction: u8,
    pub file_change_counter: u32,
    pub db_size_in_pages: u32,
    pub freelist_trunk_page: u32,
    pub total_freelist_pages: u32,
    pub schema_cookie: u32,
    pub schema_format_number: u32,
    pub default_page_cache_size: u32,
    /// Largest root B-tree page when vacuum modes are on; otherwise 0.
    pub largest_btree_root_page: u32,
    pub text_encoding: TextEncoding,
    pub user_version: u32,
    pub incremental_vacuum_mode: u32,
    pub application_id: u32,
    /// 20 bytes reserved for expansion.
    pub reserved_space: Vec<u8>,
    pub version_valid_for: u32,
    pub sqlite_version: u32,
}

impl DBHeader {
    /// A header as a well-formed parse leaves it.
    pub open spec fn wf(&self) -> bool {
        &&& spec_page_size_valid(self.page_size as nat)
        &&& self.header_string@.len() == 16
        &&& self.reserved_space@.len() == 20
    }

    /// Bytes of a page that carry data: the page size less the reserved
    /// space at its end.
    pub open spec fn spec_usable_size(&self) -> nat
        recommends
            self.wf(),
    {
        (self.page_size - self.reserved_space_size) as nat
    }

    /// Bytes of a page that carry data: the page size less the reserved
    /// space at its end.
    pub fn usable_size(&self) -> (u: u32)
        requires
            self.wf(),
        ensures
            u as nat == self.spec_usable_size(),
            257 <= u <= 65536,
    {
        self.page_size - (self.reserved_space_size as u32)
    }

    /// Decodes and validates a 100-byte file header. See
    /// [`parse_db_file_header`].
    pub fn parse_header(buffer: &[u8]) -> (r: Result<DBHeader, DBError>)
        requires
            buffer@.len() >= 100,
        ensures
            r is Ok <==> spec_header_ok(buffer@),
            r matches Ok(h) ==> parsed_header_matches(h, buffer@),
            r matches Err(e) ==> header_error_matches(e, buffer@),
    {
        parse_db_file_header(buffer)
    }
}

/// Every field of `h` holds exactly what the buffer stores at that
/// field's published offset.
pub open spec fn parsed_header_matches(h: DBHeader, s: Seq<u8>) -> bool {
    &&& h.header_string@ == spec_magic()
    &&& h.page_size as nat == spec_mapped_page_size(s)
    &&& h.write_version == s[18]
    &&& h.read_version == s[19]
    &&& h.reserved_space_size == s[20]
    &&& h.max_payload_fraction == s[21]
    &&& h.min_payload_fraction == s[22]
    &&& h.leaf_payload_fraction == s[23]
    &&& h.file_change_counter as nat == spec_be32(s, 24)
    &&& h.db_size_in_pages as nat == spec_be32(s, 28)
    &&& h.freelist_trunk_page as nat == spec_be32(s, 32)
    &&& h.total_freelist_pages as nat == spec_be32(s, 36)
    &&& h.schema_cookie as nat == spec_be32(s, 40)
    &&& h.schema_format_number as nat == spec_be32(s, 44)
    &&& h.default_page_cache_size as nat == spec_be32(s, 48)
    &&& h.largest_btree_root_page as nat == spec_be32(s, 52)
    &&& h.text_encoding == spec_text_encoding(spec_text_encoding_field(s))
    &&& h.user_version as nat == spec_be32(s, 60)
    &&& h.incremental_vacuum_mode as nat == spec_be32(s, 64)
    &&& h.application_id as nat == spec_be32(s, 68)
    &&& h.reserved_space@ == s.subrange(72, 92)
    &&& h.version_valid_for as nat == spec_be32(s, 92)
    &&& h.sqlite_version as nat == spec_be32(s, 96)
    &&& h.wf()
}

/// A parse failure names the first check that failed, and carries what
/// the buffer held there.
pub open spec fn header_error_matches(e: DBError, s: Seq<u8>) -> bool {
    ||| {
        &&& e matches DBError::InvalidMagic(b)
        &&& !spec_magic_ok(s)
        &&& b@ == s.subrange(0, 16)
    }
    ||| {
        &&& e matches DBError::InvalidPageSize(p)
        &&& spec_magic_ok(s)
        &&& p as nat == spec_mapped_page_size(s)
        &&& !spec_page_size_valid(spec_mapped_page_size(s))
    }
    ||| {
        &&& e matches DBError::InvalidTextEncoding(t)
        &&& spec_magic_ok(s)
        &&& spec_page_size_valid(spec_mapped_page_size(s))
        &&& t as nat == spec_text_encoding_field(s)
        &&& !(1 <= spec_text_encoding_field(s) <= 3)
    }
}

/// The magic string as a vector, for comparing against a buffer.
fn expected_magic() -> (v: Vec<u8>)
    ensures
        v@ == spec_magic(),
{
    let mut v: Vec<u8> = Vec::new();
    v.push(0x53);
    v.push(0x51);
    v.push(0x4c);
    v.push(0x69);
    v.push(0x74);
    v.push(0x65);
    v.push(0x20);
    v.push(0x66);
    v.push(0x6f);
    v.push(0x72);
    v.push(0x6d);
    v.push(0x61);
    v.push(0x74);
    v.push(0x20);
    v.push(0x33);
    v.push(0x00);
    proof {
        assert(v@ =~= spec_magic());
    }
    v
}

/// Decodes and validates a 100-byte file header.
///
/// The magic string must match exactly; the page size (sentinel 1 mapped
/// to 65536) must be a power of two in [512, 65536]; the text-encoding
/// field must be 1, 2 or 3. Each failure reports what was found.
pub fn parse_db_file_header(buffer: &[u8]) -> (r: Result<DBHeader, DBError>)
    requires
        buffer@.len() >= 100,
    ensures
        r is Ok <==> spec_header_ok(buffer@),
        r matches Ok(h) ==> parsed_header_matches(h, buffer@),
        r matches Err(e) ==> header_error_matches(e, buffer@),
{
    let magic = expected_magic();
    let mut i: usize = 0;
    while i < 16
        invariant
            i <= 16,
            buffer@.len() >= 100,
            magic@ == spec_magic(),
            forall|j: int| 0 <= j < i ==> buffer@[j] == spec_magic()[j],
        decreases 16 - i,
    {
        if buffer[i] != magic[i] {
            proof {
                assert(buffer@.subrange(0, 16)[i as int] != spec_magic()[i as int]);
            }
            return Err(DBError::InvalidMagic(copy_range(buffer, 0, 16)));
        }
        i = i + 1;
    }
    proof {
        assert(buffer@.subrange(0, 16) =~= spec_magic());
    }

    let mut offset: usize = 16;
    let raw_page_size = read_u16(buffer, &mut offset);
    let page_size: u32 = if raw_page_size == 1 {
        65536
    } else {
        raw_page_size as u32
    };
    let size_ok = page_size == 512 || page_size == 1024 || page_size == 2048 || page_size == 4096
        || page_size == 8192 || page_size == 16384 || page_size == 32768 || page_size == 65536;
    if !size_ok {
        return Err(DBError::InvalidPageSize(page_size));
    }

    let write_version = read_u8(buffer, &mut offset);
    let read_version = read_u8(buffer, &mut offset);
    let reserved_space_size = read_u8(buffer, &mut offset);
    let max_payload_fraction = read_u8(buffer, &mut offset);
    let min_payload_fraction = read_u8(buffer, &mut offset);
    let leaf_payload_fraction = read_u8(buffer, &mut offset);
    let file_change_counter = read_u32(buffer, &mut offset);
    let db_size_in_pages = read_u32(buffer, &mut offset);
    let freelist_trunk_page = read_u32(buffer, &mut offset);
    let total_freelist_pages = read_u32(buffer, &mut offset);
    let schema_cookie = read_u32(buffer, &mut offset);
    let schema_format_number = read_u32(buffer, &mut offset);
    let default_page_cache_size = read_u32(buffer, &mut offset);
    let largest_btree_root_page = read_u32(buffer, &mut offset);

    let text_encoding_field = read_u32(buffer, &mut offset);
    if text_encoding_field != 1 && text_encoding_field != 2 && text_encoding_field != 3 {
        return Err(DBError::InvalidTextEncoding(text_encoding_field));
    }
    let text_encoding = if text_encoding_field == 1 {
        TextEncoding::UTF8
    } else if text_encoding_field == 2 {
        TextEncoding::UTF16le
    } else {
        TextEncoding::UTF16be
    };

    let user_version = read_u32(buffer, &mut offset);
    let incremental_vacuum_mode = read_u32(buffer, &mut offset);
    let application_id = read_u32(buffer, &mut offset);
    let reserved_space = copy_range(buffer, 72, 92);
    offset = 92;
    let version_valid_for = read_u32(buffer, &mut offset);
    let sqlite_version = read_u32(buffer, &mut offset);

    Ok(
        DBHeader {
            header_string: magic,
            page_size,
            write_version,
            read_version,
            reserved_space_size,
            max_payload_fraction,
            min_payload_fraction,
            leaf_payload_fraction,
            file_change_counter,
            db_size_in_pages,
            freelist_trunk_page,
            total_freelist_pages,
            schema_cookie,
            schema_format_number,
            default_page_cache_size,
            largest_btree_root_page,
            text_encoding,
            user_version,
            incremental_vacuum_mode,
            application_id,
            reserved_space,
            version_valid_for,
            sqlite_version,
        },
    )
}

} // verus!
