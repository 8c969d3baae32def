//! The per-cell record codec.
//!
//! A record is a header followed by values. The header starts with a
//! varint giving the header's total size (that varint included), then
//! holds one serial-type varint per column. The values follow the header
//! back to back, each with the fixed width its serial type dictates,
//! big-endian, with sub-64-bit integers sign-extended from their natural
//! width.

use vstd::prelude::*;
use vstd::slice::slice_subrange;

use crate::errors::DBError;
use crate::bytes::copy_range;
use crate::varint::{pow256, read_varint_at, spec_be_nat, spec_decode_varint};

verus! {

/// The class a serial-type code puts a value in.
#[derive(Debug, Clone, Copy, PartialEq, Eq, Structural)]
pub enum SerialType {
    /// Code 0: the NULL value, no bytes stored.
    Null,
    /// Code 1: 8-bit signed integer.
    I8,
    /// Code 2: 16-bit signed integer.
    I16,
    /// Code 3: 24-bit signed integer.
    I24,
    /// Code 4: 32-bit signed integer.
    I32,
    /// Code 5: 48-bit signed integer.
    I48,
    /// Code 6: 64-bit signed integer.
    I64,
    /// Code 7: 64-bit IEEE 754 float, stored big-endian.
    F64,
    /// Code 8: the integer 0, no bytes stored.
    Int0,
    /// Code 9: the integer 1, no bytes stored.
    Int1,
    /// Even codes from 12 up: a blob of (code - 12) / 2 bytes.
    Blob(u64),
    /// Odd codes from 13 up: UTF-8 text of (code - 13) / 2 bytes.
    Text(u64),
}

/// The class of a serial-type code; codes 10 and 11 are reserved and
/// rejected.
pub open spec fn spec_serial_type(code: nat) -> Result<SerialType, DBError> {
    if code == 0 {
        Ok(SerialType::Null)
    } else if code == 1 {
        Ok(SerialType::I8)
    } else if code == 2 {
        Ok(SerialType::I16)
    } else if code == 3 {
        Ok(SerialType::I24)
    } else if code == 4 {
        Ok(SerialType::I32)
    } else if code == 5 {
        Ok(SerialType::I48)
    } else if code == 6 {
        Ok(SerialType::I64)
    } else if code == 7 {
        Ok(SerialType::F64)
    } else if code == 8 {
        Ok(SerialType::Int0)
    } else if code == 9 {
        Ok(SerialType::Int1)
    } else if code == 10 || code == 11 {
        Err(DBError::InvalidSerialType(code as u64))
    } else if code % 2 == 0 {
        Ok(SerialType::Blob(((code - 12) / 2) as u64))
    } else {
        Ok(SerialType::Text(((code - 13) / 2) as u64))
    }
}

/// How many payload bytes a value of this class occupies.
pub open spec fn spec_type_size(t: SerialType) -> nat {
    match t {
        SerialType::Null => 0,
        SerialType::I8 => 1,
        SerialType::I16 => 2,
        SerialType::I24 => 3,
        SerialType::I32 => 4,
        SerialType::I48 => 6,
        SerialType::I64 => 8,
        SerialType::F64 => 8,
        SerialType::Int0 => 0,
        SerialType::Int1 => 0,
        SerialType::Blob(n) => n as nat,
        SerialType::Text(n) => n as nat,
    }
}

impl SerialType {
    /// Maps a serial-type code to its class, rejecting the reserved
    /// codes 10 and 11.
    pub fn from_code(code: u64) -> (r: Result<SerialType, DBError>)
        ensures
            r == spec_serial_type(code as nat),
    {
        if code == 0 {
            Ok(SerialType::Null)
        } else if code == 1 {
            Ok(SerialType::I8)
        } else if code == 2 {
            Ok(SerialType::I16)
        } else if code == 3 {
            Ok(SerialType::I24)
        } else if code == 4 {
            Ok(SerialType::I32)
        } else if code == 5 {
            Ok(SerialType::I48)
        } else if code == 6 {
            Ok(SerialType::I64)
        } else if code == 7 {
            Ok(SerialType::F64)
        } else if code == 8 {
            Ok(SerialType::Int0)
        } else if code == 9 {
            Ok(SerialType::Int1)
        } else if code == 10 || code == 11 {
            Err(DBError::InvalidSerialType(code))
        } else if code % 2 == 0 {
            Ok(SerialType::Blob((code - 12) / 2))
        } else {
            Ok(SerialType::Text((code - 13) / 2))
        }
    }

    /// How many payload bytes a value of this class occupies.
    pub fn size(&self) -> (n: u64)
        ensures
            n as nat == spec_type_size(*self),
    {
        match self {
            SerialType::Null => 0,
            SerialType::I8 => 1,
            SerialType::I16 => 2,
            SerialType::I24 => 3,
            SerialType::I32 => 4,
            SerialType::I48 => 6,
            SerialType::I64 => 8,
            SerialType::F64 => 8,
            SerialType::Int0 => 0,
            SerialType::Int1 => 0,
            SerialType::Blob(n) => *n,
            SerialType::Text(n) => *n,
        }
    }
}

/// One decoded column value.
///
/// Sub-64-bit integers are normalized to 64-bit signed. A float is kept
/// as the 64 bits of its big-endian IEEE 754 representation; reading it
/// as a machine float is the caller's concern.
#[derive(Debug, PartialEq)]
pub enum Value {
    Null,
    Integer(i64),
    Float(u64),
    Text(String),
    Blob(Vec<u8>),
}

/// The mathematical shape of a [`Value`].
pub enum SpecValue {
    Null,
    Integer(i64),
    Float(u64),
    Text(Seq<char>),
    Blob(Seq<u8>),
}

impl View for Value {
    type V = SpecValue;

    open spec fn view(&self) -> SpecValue {
        match self {
            Value::Null => SpecValue::Null,
            Value::Integer(i) => SpecValue::Integer(*i),
            Value::Float(b) => SpecValue::Float(*b),
            Value::Text(s) => SpecValue::Text(s@),
            Value::Blob(b) => SpecValue::Blob(b@),
        }
    }
}

impl Clone for Value {
    /// Cloning keeps the value's contents.
    fn clone(&self) -> (r: Self)
        ensures
            r@ == self@,
    {
        match self {
            Value::Null => Value::Null,
            Value::Integer(i) => Value::Integer(*i),
            Value::Float(b) => Value::Float(*b),
            Value::Text(s) => Value::Text(s.clone()),
            Value::Blob(b) => {
                let c = b.clone();
                proof {
                    assert(c@ =~= b@);
                }
                Value::Blob(c)
            },
        }
    }
}

/// An ordered sequence of values decoded from one cell payload.
#[derive(Debug, PartialEq)]
pub struct Record {
    pub values: Vec<Value>,
}

impl View for Record {
    type V = Seq<SpecValue>;

    open spec fn view(&self) -> Seq<SpecValue> {
        self.values@.map_values(|v: Value| v@)
    }
}

impl Clone for Record {
    /// Cloning keeps every value.
    fn clone(&self) -> (r: Self)
        ensures
            r@ == self@,
    {
        let c = self.values.clone();
        proof {
            assert(c@.map_values(|v: Value| v@) =~= self.values@.map_values(|v: Value| v@));
        }
        Record { values: c }
    }
}

/// The signed big-endian integer held in `s`, two's complement over
/// `s.len()` bytes.
pub open spec fn spec_signed_be(s: Seq<u8>) -> int
    recommends
        s.len() >= 1,
{
    if s[0] >= 128 {
        spec_be_nat(s) - pow256(s.len())
    } else {
        spec_be_nat(s) as int
    }
}

/// How many header bytes are left to read; zero once `off` passes `end`.
pub open spec fn spec_span_left(off: int, end: int) -> int {
    if off < end {
        end - off
    } else {
        0
    }
}

/// The serial-type codes between `off` and `end`, each mapped to its
/// class; reading stops once the offset reaches `end`.
pub open spec fn spec_parse_serial_types(s: Seq<u8>, off: int, end: int) -> Result<
    Seq<SerialType>,
    DBError,
>
    decreases spec_span_left(off, end),
    via spec_parse_serial_types_decreases
{
    if off >= end {
        Ok(Seq::empty())
    } else {
        match spec_decode_varint(s, off) {
            Err(e) => Err(e),
            Ok(p) => match spec_serial_type(p.0) {
                Err(e) => Err(e),
                Ok(t) => match spec_parse_serial_types(s, off + p.1, end) {
                    Err(e) => Err(e),
                    Ok(rest) => Ok(seq![t] + rest),
                },
            },
        }
    }
}

#[via_fn]
proof fn spec_parse_serial_types_decreases(s: Seq<u8>, off: int, end: int) {
    crate::varint::lemma_decode_varint_fits(s, off);
}

/// The value of class `t` stored at `off`, or `TruncatedPage` if fewer
/// than its width of bytes remain.
pub open spec fn spec_read_value(s: Seq<u8>, off: int, t: SerialType) -> Result<
    SpecValue,
    DBError,
> {
    if off < 0 || off + spec_type_size(t) > s.len() {
        Err(DBError::TruncatedPage)
    } else {
        let field = s.subrange(off, off + spec_type_size(t));
        match t {
            SerialType::Null => Ok(SpecValue::Null),
            SerialType::I8 => Ok(SpecValue::Integer(spec_signed_be(field) as i64)),
            SerialType::I16 => Ok(SpecValue::Integer(spec_signed_be(field) as i64)),
            SerialType::I24 => Ok(SpecValue::Integer(spec_signed_be(field) as i64)),
            SerialType::I32 => Ok(SpecValue::Integer(spec_signed_be(field) as i64)),
            SerialType::I48 => Ok(SpecValue::Integer(spec_signed_be(field) as i64)),
            SerialType::I64 => Ok(SpecValue::Integer(spec_signed_be(field) as i64)),
            SerialType::F64 => Ok(SpecValue::Float(spec_be_nat(field) as u64)),
            SerialType::Int0 => Ok(SpecValue::Integer(0)),
            SerialType::Int1 => Ok(SpecValue::Integer(1)),
            SerialType::Blob(_) => Ok(SpecValue::Blob(field)),
            SerialType::Text(_) => if vstd::utf8::valid_utf8(field) {
                Ok(SpecValue::Text(vstd::utf8::decode_utf8(field)))
            } else {
                Err(DBError::InvalidPayloadEncoding)
            },
        }
    }
}

/// The values of the given classes, read back to back from `off`.
pub open spec fn spec_read_values(s: Seq<u8>, off: int, types: Seq<SerialType>) -> Result<
    Seq<SpecValue>,
    DBError,
>
    decreases types.len(),
{
    if types.len() == 0 {
        Ok(Seq::empty())
    } else {
        match spec_read_value(s, off, types[0]) {
            Err(e) => Err(e),
            Ok(v) => match spec_read_values(
                s,
                off + spec_type_size(types[0]),
                types.drop_first(),
            ) {
                Err(e) => Err(e),
                Ok(rest) => Ok(seq![v] + rest),
            },
        }
    }
}

/// What decoding a whole cell payload yields: the record's values in
/// column order.
///
/// The leading varint gives the header size including itself; a header
/// size smaller than its own varint or larger than the payload cannot
/// be read and fails as a truncated read.
pub open spec fn spec_decode_record(payload: Seq<u8>) -> Result<Seq<SpecValue>, DBError> {
    match spec_decode_varint(payload, 0) {
        Err(e) => Err(e),
        Ok(p) => if p.0 < p.1 || p.0 > payload.len() {
            Err(DBError::TruncatedPage)
        } else {
            match spec_parse_serial_types(payload, p.1, p.0 as int) {
                Err(e) => Err(e),
                Ok(types) => match spec_read_values(payload, p.0 as int, types) {
                    Err(e) => Err(e),
                    Ok(vals) => Ok(vals),
                },
            }
        },
    }
}

/// Reads a whole slice of one to eight bytes as a big-endian two's
/// complement integer of that width.
fn read_signed_be(bytes: &[u8]) -> (v: i64)
    requires
        1 <= bytes@.len() <= 8,
    ensures
        v as int == spec_signed_be(bytes@),
{
    let ghost s = bytes@;
    let len = bytes.len();
    let b0 = bytes[0];
    let mut val: i64 = if b0 >= 128 {
        (b0 as i64) - 256
    } else {
        b0 as i64
    };
    let mut i: usize = 1;
    proof {
        assert(spec_be_nat(s.take(1)) == s[0] as nat) by {
            reveal_with_fuel(spec_be_nat, 2);
            assert(s.take(1).len() == 1);
            assert(s.take(1).drop_last() =~= Seq::<u8>::empty());
            assert(s.take(1).last() == s[0]);
        }
        assert(pow256(1) == 256) by {
            reveal_with_fuel(pow256, 2);
        }
    }
    while i < len
        invariant
            1 <= i <= len,
            len == s.len() <= 8,
            s == bytes@,
            val as int == spec_be_nat(s.take(i as int)) - (if s[0] >= 128 {
                pow256(i as nat)
            } else {
                0
            }),
            -128 * pow256((i - 1) as nat) <= val as int,
            (val as int) < 128 * pow256((i - 1) as nat),
        decreases len - i,
    {
        proof {
            crate::varint::lemma_pow256_le_7(i as nat);
        }
        let b = bytes[i];
        let next = val * 256 + (b as i64);
        proof {
            assert(s.take(i + 1).drop_last() =~= s.take(i as int));
            assert(s.take(i + 1).last() == s[i as int]);
            assert(pow256((i + 1) as nat) == 256 * pow256(i as nat));
        }
        val = next;
        i = i + 1;
    }
    proof {
        assert(s.take(len as int) =~= s);
    }
    val
}

/// Turns bytes into a string when they are valid UTF-8.
///
/// Relies on str::from_utf8: it accepts exactly the valid UTF-8 byte
/// sequences and yields the characters they encode.
#[verifier::external_body]
fn utf8_to_string(bytes: &[u8]) -> (r: Option<String>)
    ensures
        match r {
            Some(t) => vstd::utf8::valid_utf8(bytes@) && t@ == vstd::utf8::decode_utf8(bytes@),
            None => !vstd::utf8::valid_utf8(bytes@),
        },
{
    match core::str::from_utf8(bytes) {
        Ok(s) => Some(s.to_owned()),
        Err(_) => None,
    }
}

/// Reads one value of class `t` at `off`, returning it and its width.
pub fn read_value(buffer: &[u8], off: usize, t: SerialType) -> (r: Result<
    (Value, usize),
    DBError,
>)
    ensures
        match r {
            Ok(p) => {
                &&& spec_read_value(buffer@, off as int, t) == Ok::<SpecValue, DBError>(p.0@)
                &&& p.1 as nat == spec_type_size(t)
                &&& off + p.1 <= buffer@.len()
            },
            Err(e) => spec_read_value(buffer@, off as int, t) == Err::<SpecValue, DBError>(e),
        },
{
    let len = buffer.len();
    let size64 = t.size();
    if size64 > len as u64 {
        return Err(DBError::TruncatedPage);
    }
    let size = size64 as usize;
    if off > len - size {
        return Err(DBError::TruncatedPage);
    }
    let ghost field = buffer@.subrange(off as int, off + spec_type_size(t));
    match t {
        SerialType::Null => Ok((Value::Null, 0)),
        SerialType::Int0 => Ok((Value::Integer(0), 0)),
        SerialType::Int1 => Ok((Value::Integer(1), 0)),
        SerialType::I8 | SerialType::I16 | SerialType::I24 | SerialType::I32 | SerialType::I48
            | SerialType::I64 => {
            let sub = slice_subrange(buffer, off, off + size);
            let v = read_signed_be(sub);
            Ok((Value::Integer(v), size))
        },
        SerialType::F64 => {
            let sub = slice_subrange(buffer, off, off + size);
            let bits = crate::varint::read_u64_from_bytes(sub);
            Ok((Value::Float(bits), size))
        },
        SerialType::Blob(_) => {
            let v = copy_range(buffer, off, off + size);
            Ok((Value::Blob(v), size))
        },
        SerialType::Text(_) => {
            let v = copy_range(buffer, off, off + size);
            match utf8_to_string(v.as_slice()) {
                Some(text) => Ok((Value::Text(text), size)),
                None => Err(DBError::InvalidPayloadEncoding),
            }
        },
    }
}

/// Decodes a cell payload into its record: the header's serial types,
/// then the values they describe, in order.
pub fn decode_record(payload: &[u8]) -> (r: Result<Record, DBError>)
    ensures
        match r {
            Ok(rec) => spec_decode_record(payload@) == Ok::<Seq<SpecValue>, DBError>(rec@),
            Err(e) => spec_decode_record(payload@) == Err::<Seq<SpecValue>, DBError>(e),
        },
{
    let ghost s = payload@;
    let len = payload.len();
    let (header_size, header_varint_len) = match read_varint_at(payload, 0) {
        Ok(p) => p,
        Err(e) => {
            return Err(e);
        },
    };
    if header_size < header_varint_len as u64 || header_size > len as u64 {
        return Err(DBError::TruncatedPage);
    }
    let end = header_size as usize;
    let ghost end_i = end as int;

    // Collect the serial types named in the header.
    let mut types: Vec<SerialType> = Vec::new();
    let mut off = header_varint_len;
    proof {
        match spec_parse_serial_types(s, off as int, end_i) {
            Ok(rest) => {
                assert(Seq::<SerialType>::empty() + rest =~= rest);
            },
            Err(_) => {},
        }
    }
    while off < end
        invariant
            off <= s.len(),
            end <= s.len(),
            s.len() <= usize::MAX,
            s == payload@,
            spec_decode_varint(s, 0) == Ok::<(nat, int), DBError>(
                (end as nat, header_varint_len as int),
            ),
            header_varint_len <= end,
            end_i == end as int,
            match spec_parse_serial_types(s, off as int, end_i) {
                Ok(rest) => spec_parse_serial_types(s, header_varint_len as int, end_i)
                    == Ok::<Seq<SerialType>, DBError>(types@ + rest),
                Err(e) => spec_parse_serial_types(s, header_varint_len as int, end_i)
                    == Err::<Seq<SerialType>, DBError>(e),
            },
        decreases spec_span_left(off as int, end as int),
    {
        let (code, n) = match read_varint_at(payload, off) {
            Ok(p) => p,
            Err(e) => {
                return Err(e);
            },
        };
        let t = match SerialType::from_code(code) {
            Ok(t) => t,
            Err(e) => {
                return Err(e);
            },
        };
        let ghost old_types = types@;
        types.push(t);
        proof {
            match spec_parse_serial_types(s, off + n, end_i) {
                Ok(rest) => {
                    assert(old_types + (seq![t] + rest) =~= types@ + rest);
                },
                Err(_) => {},
            }
        }
        off = off + n;
    }
    proof {
        assert(spec_parse_serial_types(s, off as int, end_i) == Ok::<Seq<SerialType>, DBError>(
            Seq::empty(),
        ));
        assert(types@ + Seq::<SerialType>::empty() =~= types@);
    }

    // Read the values the header promised, back to back after it.
    let ghost all_types = types@;
    let mut values: Vec<Value> = Vec::new();
    let mut voff = end;
    let mut i: usize = 0;
    proof {
        assert(all_types.skip(0) =~= all_types);
        match spec_read_values(s, voff as int, all_types) {
            Ok(rest) => {
                assert(Seq::<Value>::empty().map_values(|v: Value| v@) + rest =~= rest);
            },
            Err(_) => {},
        }
    }
    while i < types.len()
        invariant
            i <= types@.len(),
            voff <= s.len(),
            s.len() <= usize::MAX,
            s == payload@,
            types@ == all_types,
            values@.len() == i,
            spec_decode_varint(s, 0) == Ok::<(nat, int), DBError>(
                (end as nat, header_varint_len as int),
            ),
            header_varint_len <= end,
            end <= s.len(),
            end_i == end as int,
            spec_parse_serial_types(s, header_varint_len as int, end_i) == Ok::<
                Seq<SerialType>,
                DBError,
            >(all_types),
            match spec_read_values(s, voff as int, all_types.skip(i as int)) {
                Ok(rest) => spec_read_values(s, end_i, all_types) == Ok::<
                    Seq<SpecValue>,
                    DBError,
                >(values@.map_values(|v: Value| v@) + rest),
                Err(e) => spec_read_values(s, end_i, all_types) == Err::<Seq<SpecValue>, DBError>(
                    e,
                ),
            },
        decreases types@.len() - i,
    {
        proof {
            assert(all_types.skip(i as int)[0] == all_types[i as int]);
        }
        let t = types[i];
        let (v, sz) = match read_value(payload, voff, t) {
            Ok(p) => p,
            Err(e) => {
                return Err(e);
            },
        };
        let ghost old_values = values@;
        values.push(v);
        proof {
            assert(all_types.skip(i as int).drop_first() =~= all_types.skip(i + 1));
            match spec_read_values(s, voff + sz, all_types.skip(i + 1)) {
                Ok(rest) => {
                    assert(old_values.map_values(|x: Value| x@) + (seq![v@] + rest) =~= values@
                        .map_values(|x: Value| x@) + rest);
                },
                Err(_) => {},
            }
        }
        voff = voff + sz;
        i = i + 1;
    }
    proof {
        assert(all_types.skip(i as int) =~= Seq::<SerialType>::empty());
        assert(spec_read_values(s, voff as int, all_types.skip(i as int)) == Ok::<
            Seq<SpecValue>,
            DBError,
        >(Seq::empty()));
        assert(values@.map_values(|v: Value| v@) + Seq::<SpecValue>::empty() =~= values@
            .map_values(|v: Value| v@));
    }
    Ok(Record { values })
}

/// The serial types of a row of text columns followed by one
/// 8-bit integer: one text class per segment, then `I8`.
pub open spec fn spec_text_run_types(texts: Seq<Seq<u8>>) -> Seq<SerialType>
    decreases texts.len(),
{
    if texts.len() == 0 {
        seq![SerialType::I8]
    } else {
        seq![SerialType::Text(texts[0].len() as u64)] + spec_text_run_types(texts.drop_first())
    }
}

/// How many bytes the first `i` text segments occupy.
pub open spec fn spec_texts_before(texts: Seq<Seq<u8>>, i: int) -> int
    decreases i,
{
    if i <= 0 {
        0
    } else {
        texts[0].len() + spec_texts_before(texts.drop_first(), i - 1)
    }
}

proof fn lemma_texts_before_nonneg(texts: Seq<Seq<u8>>, i: int)
    ensures
        spec_texts_before(texts, i) >= 0,
    decreases i,
{
    if i > 0 {
        lemma_texts_before_nonneg(texts.drop_first(), i - 1);
    }
}

/// The values such a row decodes to: each text segment as a text value,
/// then the final byte as a sign-extended integer.
pub open spec fn spec_text_run_values(texts: Seq<Seq<u8>>, b: u8) -> Seq<SpecValue> {
    texts.map_values(|t: Seq<u8>| SpecValue::Text(vstd::utf8::decode_utf8(t))) + seq![
        SpecValue::Integer(
            (if b < 128 {
                b as int
            } else {
                b - 256
            }) as i64,
        ),
    ]
}

/// A row of text columns and a final one-byte integer decodes to
/// exactly those contents: for any text segments laid out back to back
/// at `off` and followed by one byte `b`, reading values of the
/// matching serial types yields the texts, in order and at their exact
/// byte lengths, then `b` sign-extended from 8 bits.
pub proof fn lemma_text_run_decodes(s: Seq<u8>, off: int, texts: Seq<Seq<u8>>, b: u8)
    requires
        0 <= off,
        off + spec_texts_before(texts, texts.len() as int) + 1 <= s.len(),
        forall|i: int| 0 <= i < texts.len() ==> (#[trigger] texts[i]).len() <= u64::MAX,
        forall|i: int| 0 <= i < texts.len() ==> vstd::utf8::valid_utf8(#[trigger] texts[i]),
        forall|i: int|
            0 <= i < texts.len() ==> s.subrange(
                off + spec_texts_before(texts, i),
                off + spec_texts_before(texts, i) + (#[trigger] texts[i]).len(),
            ) == texts[i],
        s[off + spec_texts_before(texts, texts.len() as int)] == b,
    ensures
        spec_read_values(s, off, spec_text_run_types(texts)) == Ok::<Seq<SpecValue>, DBError>(
            spec_text_run_values(texts, b),
        ),
    decreases texts.len(),
{
    if texts.len() == 0 {
        let types = spec_text_run_types(texts);
        assert(types == seq![SerialType::I8]);
        assert(types[0] == SerialType::I8);
        assert(spec_texts_before(texts, 0) == 0);
        let field = s.subrange(off, off + 1);
        assert(field =~= seq![b]);
        assert(spec_be_nat(field) == b) by {
            reveal_with_fuel(spec_be_nat, 2);
            assert(field.drop_last() =~= Seq::<u8>::empty());
            assert(field.last() == b);
        }
        assert(pow256(1) == 256) by {
            reveal_with_fuel(pow256, 2);
        }
        assert(spec_read_value(s, off, SerialType::I8) == Ok::<SpecValue, DBError>(
            SpecValue::Integer(
                (if b < 128 {
                    b as int
                } else {
                    b - 256
                }) as i64,
            ),
        ));
        assert(types.drop_first() =~= Seq::<SerialType>::empty());
        assert(texts.map_values(|t: Seq<u8>| SpecValue::Text(vstd::utf8::decode_utf8(t)))
            =~= Seq::<SpecValue>::empty());
        let v = SpecValue::Integer(
            (if b < 128 {
                b as int
            } else {
                b - 256
            }) as i64,
        );
        assert(spec_type_size(types[0]) == 1);
        assert(spec_read_values(s, off + 1, Seq::<SerialType>::empty()) == Ok::<
            Seq<SpecValue>,
            DBError,
        >(Seq::empty()));
        assert(spec_read_values(s, off, types) == Ok::<Seq<SpecValue>, DBError>(
            seq![v] + Seq::<SpecValue>::empty(),
        ));
        assert(seq![v] + Seq::<SpecValue>::empty() =~= spec_text_run_values(texts, b));
    } else {
        let l0 = texts[0].len() as int;
        let texts2 = texts.drop_first();
        let types = spec_text_run_types(texts);
        let rest_types = spec_text_run_types(texts2);
        assert(types == seq![SerialType::Text(texts[0].len() as u64)] + rest_types);
        assert(types[0] == SerialType::Text(texts[0].len() as u64));
        assert(types.drop_first() =~= rest_types);
        assert(spec_texts_before(texts, 0) == 0);
        lemma_texts_before_nonneg(texts2, texts2.len() as int);
        assert(spec_texts_before(texts, texts.len() as int) == l0 + spec_texts_before(
            texts2,
            texts2.len() as int,
        ));
        assert(spec_type_size(types[0]) == l0);
        assert(s.subrange(off, off + l0) == texts[0]);
        assert(vstd::utf8::valid_utf8(texts[0]));
        assert(spec_read_value(s, off, types[0]) == Ok::<SpecValue, DBError>(
            SpecValue::Text(vstd::utf8::decode_utf8(texts[0])),
        ));

        // The tail run starts right after the first segment.
        assert forall|i: int| 0 <= i < texts2.len() implies spec_texts_before(texts, i + 1) == l0
            + spec_texts_before(texts2, i) by {}
        assert forall|i: int|
            0 <= i < texts2.len() implies s.subrange(
                (off + l0) + spec_texts_before(texts2, i),
                (off + l0) + spec_texts_before(texts2, i) + (#[trigger] texts2[i]).len(),
            ) == texts2[i] by {
            assert(texts2[i] == texts[i + 1]);
            assert(spec_texts_before(texts, i + 1) == l0 + spec_texts_before(texts2, i));
            assert(s.subrange(
                off + spec_texts_before(texts, i + 1),
                off + spec_texts_before(texts, i + 1) + texts[i + 1].len(),
            ) == texts[i + 1]);
        }
        assert forall|i: int| 0 <= i < texts2.len() implies (#[trigger] texts2[i]).len()
            <= u64::MAX && vstd::utf8::valid_utf8(texts2[i]) by {
            assert(texts2[i] == texts[i + 1]);
        }
        assert(s[(off + l0) + spec_texts_before(texts2, texts2.len() as int)] == b);
        lemma_text_run_decodes(s, off + l0, texts2, b);

        assert(spec_read_values(s, off + l0, rest_types) == Ok::<Seq<SpecValue>, DBError>(
            spec_text_run_values(texts2, b),
        ));
        assert(spec_read_values(s, off, types) == Ok::<Seq<SpecValue>, DBError>(
            seq![SpecValue::Text(vstd::utf8::decode_utf8(texts[0]))] + spec_text_run_values(
                texts2,
                b,
            ),
        ));
        assert(seq![SpecValue::Text(vstd::utf8::decode_utf8(texts[0]))] + spec_text_run_values(
            texts2,
            b,
        ) =~= spec_text_run_values(texts, b));
    }
}

} // verus!
