use vstd::prelude::*;

verus! {

/// Everything that can go wrong while decoding a database file.
///
/// Decode functions surface these instead of aborting; the variants carry
/// the observed bytes or values so a caller can diagnose the failure.
#[derive(Debug, Clone, PartialEq)]
pub enum DBError {
    /// The 16-byte magic string at the start of the file did not match;
    /// carries the bytes that were actually found.
    InvalidMagic(Vec<u8>),
    /// The page size (after mapping the sentinel 1 to 65536) is not a
    /// power of two in [512, 65536].
    InvalidPageSize(u32),
    /// The text-encoding field held something other than 1, 2 or 3.
    InvalidTextEncoding(u32),
    /// A page's type byte was none of 2, 5, 10 or 13.
    InvalidPageType(u8),
    /// A record header held a serial-type code with no defined class.
    InvalidSerialType(u64),
    /// A varint whose bytes fit no valid form. The decoder reads the
    /// ninth byte whole, so every in-bounds sequence decodes and this
    /// is never raised by it; the variant stays for callers that
    /// validate varints of their own.
    InvalidVarintEncoding,
    /// A varint ran past the end of the supplied buffer.
    TruncatedInput,
    /// The file image ends before the requested page does.
    TruncatedFile,
    /// A read within a page would run past the page's end.
    TruncatedPage,
    /// An overflow chain ended before yielding the promised bytes.
    TruncatedOverflowChain,
    /// A text value was not valid UTF-8.
    InvalidPayloadEncoding,
    /// A page number that can name no page: zero, or a B-tree descent
    /// that ran deeper than the file has pages and so must have looped.
    PageIndexOutOfRange,
    /// An underlying I/O failure, reported by an unverified caller.
    Io,
}

} // verus!
