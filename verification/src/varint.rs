//! The variable-length integer encoding used throughout the file format.
//!
//! A varint is one to nine bytes. In each of the first eight bytes the low
//! seven bits carry payload and the high bit says whether another byte
//! follows; decoding accumulates seven bits per byte, most-significant
//! chunk first. A ninth byte, if reached, contributes all eight of its
//! bits, since 8 * 7 + 8 = 64 bits exactly.

use vstd::prelude::*;

use crate::errors::DBError;

verus! {

/// 128 raised to `e`; the weight of the `e`-th 7-bit chunk.
pub open spec fn pow128(e: nat) -> nat
    decreases e,
{
    if e == 0 {
        1
    } else {
        128 * pow128((e - 1) as nat)
    }
}

/// 256 raised to `e`; the weight of the `e`-th byte of a big-endian integer.
pub open spec fn pow256(e: nat) -> nat
    decreases e,
{
    if e == 0 {
        1
    } else {
        256 * pow256((e - 1) as nat)
    }
}

/// One step of varint decoding: `i` chunks have been read so far into
/// `acc`, and the next byte sits at `off + i`. Yields the decoded value
/// and the number of bytes consumed, or `TruncatedInput` if the buffer
/// ends first.
pub open spec fn varint_rec(s: Seq<u8>, off: int, i: int, acc: nat) -> Result<(nat, int), DBError>
    decreases 9 - i,
{
    if off + i < 0 || off + i >= s.len() {
        Err(DBError::TruncatedInput)
    } else if i >= 8 {
        Ok(((acc * 256 + s[off + i]) as nat, 9))
    } else if s[off + i] < 128 {
        Ok(((acc * 128 + s[off + i]) as nat, i + 1))
    } else {
        varint_rec(s, off, i + 1, (acc * 128 + (s[off + i] - 128)) as nat)
    }
}

/// What decoding a varint at `off` in `s` yields.
pub open spec fn spec_decode_varint(s: Seq<u8>, off: int) -> Result<(nat, int), DBError> {
    varint_rec(s, off, 0, 0)
}

/// The number of bytes the encoder uses for `v`: the least number of
/// 7-bit chunks that hold `v`, or nine when `v` needs more than 56 bits.
pub open spec fn spec_varint_len(v: nat) -> nat
    decreases v,
{
    if v >= pow128(8) {
        9
    } else if v < 128 {
        1
    } else {
        1 + spec_varint_len(v / 128)
    }
}

proof fn lemma_pow128_mono(a: nat, b: nat)
    requires
        a <= b,
    ensures
        pow128(a) <= pow128(b),
    decreases b,
{
    if a < b {
        lemma_pow128_mono(a, (b - 1) as nat);
    }
}

/// Every decoded varint fits in 64 bits.
proof fn lemma_varint_rec_bound(s: Seq<u8>, off: int, i: int, acc: nat)
    requires
        0 <= i <= 8,
        acc < pow128(i as nat),
    ensures
        varint_rec(s, off, i, acc) matches Ok(p) ==> p.0 < pow256(8) && i < p.1 <= 9,
    decreases 9 - i,
{
    reveal_with_fuel(pow128, 9);
    reveal_with_fuel(pow256, 9);
    assert(pow128(8) * 256 == pow256(8));
    if off + i < 0 || off + i >= s.len() {
    } else if i >= 8 {
    } else if s[off + i] < 128 {
        lemma_pow128_mono((i + 1) as nat, 8);
        assert(pow128(8) < pow256(8));
    } else {
        lemma_varint_rec_bound(s, off, i + 1, (acc * 128 + (s[off + i] - 128)) as nat);
    }
}

/// The value a varint decodes to is below 2^64.
pub proof fn lemma_decode_varint_fits(s: Seq<u8>, off: int)
    ensures
        spec_decode_varint(s, off) matches Ok(p) ==> p.0 < 0x1_0000_0000_0000_0000 && 1 <= p.1
            <= 9,
{
    lemma_varint_rec_bound(s, off, 0, 0);
    assert(pow256(8) == 0x1_0000_0000_0000_0000) by {
        reveal_with_fuel(pow256, 9);
    }
}

/// Decodes the varint that starts at byte `offset` of `buffer`.
///
/// Returns the value and the number of bytes consumed, or
/// `TruncatedInput` if the buffer ends before the varint does.
pub fn read_varint_at(buffer: &[u8], offset: usize) -> (r: Result<(u64, usize), DBError>)
    ensures
        match r {
            Ok(p) => {
                &&& spec_decode_varint(buffer@, offset as int) == Ok::<(nat, int), DBError>(
                    (p.0 as nat, p.1 as int),
                )
                &&& 1 <= p.1 <= 9
                &&& offset + p.1 <= buffer@.len()
            },
            Err(e) => spec_decode_varint(buffer@, offset as int) == Err::<(nat, int), DBError>(e),
        },
{
    let ghost s = buffer@;
    let len = buffer.len();
    let mut acc: u64 = 0;
    let mut i: usize = 0;
    if offset >= len {
        return Err(DBError::TruncatedInput);
    }
    while i < 8
        invariant
            i <= 8,
            offset < len,
            offset + i <= len,
            len == s.len(),
            s == buffer@,
            acc < pow128(i as nat),
            varint_rec(s, offset as int, 0, 0) == varint_rec(s, offset as int, i as int, acc as nat),
        decreases 8 - i,
    {
        proof {
            lemma_pow128_mono(i as nat, 7);
            assert(pow128(7) == 0x2_0000_0000_0000) by {
                reveal_with_fuel(pow128, 8);
            }
        }
        let idx = offset + i;
        if idx >= len {
            return Err(DBError::TruncatedInput);
        }
        let b = buffer[idx];
        if b < 0x80 {
            let v = acc * 128 + (b as u64);
            return Ok((v, i + 1));
        }
        acc = acc * 128 + ((b - 128) as u64);
        i = i + 1;
    }
    proof {
        assert(pow128(8) == 0x100_0000_0000_0000) by {
            reveal_with_fuel(pow128, 9);
        }
    }
    let idx = offset + 8;
    if idx >= len {
        return Err(DBError::TruncatedInput);
    }
    let b = buffer[idx];
    let v = acc * 256 + (b as u64);
    Ok((v, 9))
}

/// Decodes the varint at the start of `buffer`.
pub fn read_varint(buffer: &[u8]) -> (r: Result<(u64, usize), DBError>)
    ensures
        match r {
            Ok(p) => spec_decode_varint(buffer@, 0) == Ok::<(nat, int), DBError>(
                (p.0 as nat, p.1 as int),
            ) && 1 <= p.1 <= 9 && p.1 <= buffer@.len(),
            Err(e) => spec_decode_varint(buffer@, 0) == Err::<(nat, int), DBError>(e),
        },
{
    read_varint_at(buffer, 0)
}

/// Decodes the varint at `*offset` and advances `*offset` past it.
///
/// The caller must know that a complete varint starts there; use
/// [`read_varint_at`] when the buffer may be truncated.
pub fn get_varint(buffer: &[u8], offset: &mut usize) -> (v: u64)
    requires
        spec_decode_varint(buffer@, *old(offset) as int) is Ok,
    ensures
        spec_decode_varint(buffer@, *old(offset) as int) matches Ok(p) && v as nat == p.0
            && *final(offset) == *old(offset) + p.1,
        *old(offset) < *final(offset) <= buffer@.len(),
{
    let len = buffer.len();
    match read_varint_at(buffer, *offset) {
        Ok((v, n)) => {
            *offset = *offset + n;
            v
        },
        Err(_) => vstd::pervasive::unreached(),
    }
}

/// Decoding walks the flagged 7-bit chunks of `v` laid out at `i..k-1`
/// with an unflagged final chunk at `k-1`, and recovers exactly `v`.
proof fn lemma_decode_short(s: Seq<u8>, v: nat, k: int, i: int)
    requires
        1 <= k <= 8,
        0 <= i < k,
        k <= s.len(),
        v < pow128(k as nat),
        forall|j: int|
            i <= j < k - 1 ==> s[j] == 128 + (v / pow128((k - 1 - j) as nat)) % 128,
        s[k - 1] == v % 128,
    ensures
        varint_rec(s, 0, i, v / pow128((k - i) as nat)) == Ok::<(nat, int), DBError>((v, k)),
    decreases k - i,
{
    broadcast use vstd::arithmetic::div_mod::lemma_fundamental_div_mod;

    let acc = v / pow128((k - i) as nat);
    if i == k - 1 {
        assert(pow128(1) == 128) by {
            reveal_with_fuel(pow128, 2);
        }
        assert(s[i] == v % 128);
        assert(s[i] < 128);
        assert(acc == v / 128);
        assert(128 * (v / 128) + v % 128 == v);
    } else {
        let a = pow128((k - 1 - i) as nat);
        let q = v / a;
        assert(pow128((k - i) as nat) == 128 * a);
        assert(a > 0) by {
            lemma_pow128_mono(0, (k - 1 - i) as nat);
        }
        vstd::arithmetic::div_mod::lemma_div_denominator(v as int, a as int, 128);
        assert(acc == q / 128);
        assert(s[i] == 128 + q % 128);
        assert(128 * (q / 128) + q % 128 == q);
        assert((acc * 128 + (s[i] - 128)) as nat == q);
        lemma_decode_short(s, v, k, i + 1);
    }
}

/// Decoding the fixed nine-byte form: eight flagged chunks of `w`
/// followed by one full byte.
proof fn lemma_decode_nine(s: Seq<u8>, w: nat, i: int)
    requires
        0 <= i <= 8,
        s.len() >= 9,
        w < pow128(8),
        forall|j: int| i <= j < 8 ==> s[j] == 128 + (w / pow128((7 - j) as nat)) % 128,
    ensures
        varint_rec(s, 0, i, w / pow128((8 - i) as nat)) == Ok::<(nat, int), DBError>(
            ((w * 256 + s[8]) as nat, 9),
        ),
    decreases 8 - i,
{
    broadcast use vstd::arithmetic::div_mod::lemma_fundamental_div_mod;

    let acc = w / pow128((8 - i) as nat);
    if i == 8 {
        assert(pow128(0) == 1);
        vstd::arithmetic::div_mod::lemma_div_basics(w as int);
        assert(acc == w);
    } else {
        let a = pow128((7 - i) as nat);
        let q = w / a;
        assert(pow128((8 - i) as nat) == 128 * a);
        assert(a > 0) by {
            lemma_pow128_mono(0, (7 - i) as nat);
        }
        vstd::arithmetic::div_mod::lemma_div_denominator(w as int, a as int, 128);
        assert(acc == q / 128);
        assert(s[i] == 128 + q % 128);
        assert(128 * (q / 128) + q % 128 == q);
        assert((acc * 128 + (s[i] - 128)) as nat == q);
        lemma_decode_nine(s, w, i + 1);
    }
}

/// 128 raised to `e`, computed for the encoder.
fn pow128_exec(e: usize) -> (r: u64)
    requires
        e <= 8,
    ensures
        r as nat == pow128(e as nat),
        r >= 1,
{
    let mut p: u64 = 1;
    let mut x: usize = 0;
    while x < e
        invariant
            x <= e <= 8,
            p as nat == pow128(x as nat),
        decreases e - x,
    {
        proof {
            lemma_pow128_mono(x as nat, 7);
            assert(pow128(7) == 0x2_0000_0000_0000) by {
                reveal_with_fuel(pow128, 8);
            }
        }
        p = p * 128;
        x = x + 1;
    }
    proof {
        lemma_pow128_mono(0, e as nat);
    }
    p
}

/// Encodes `value` as a varint: the exact inverse of decoding, using the
/// fewest bytes the format allows, at most nine.
pub fn encode_varint(value: u64) -> (r: Vec<u8>)
    ensures
        spec_decode_varint(r@, 0) == Ok::<(nat, int), DBError>((value as nat, r@.len() as int)),
        r@.len() == spec_varint_len(value as nat),
        1 <= r@.len() <= 9,
{
    broadcast use vstd::arithmetic::div_mod::lemma_fundamental_div_mod;

    proof {
        assert(pow128(8) == 0x100_0000_0000_0000) by {
            reveal_with_fuel(pow128, 9);
        }
    }
    let mut r: Vec<u8> = Vec::new();
    if value >= 0x100_0000_0000_0000 {
        // Nine-byte form: eight flagged 7-bit chunks of the high 56 bits,
        // then the low byte whole.
        let w = value / 256;
        let mut j: usize = 0;
        while j < 8
            invariant
                j <= 8,
                w == value as nat / 256,
                w < pow128(8),
                r@.len() == j,
                forall|t: int|
                    0 <= t < j ==> r@[t] == 128 + ((w as nat) / pow128((7 - t) as nat)) % 128,
            decreases 8 - j,
        {
            let p = pow128_exec(7 - j);
            let chunk = (w / p) % 128;
            r.push((128 + chunk) as u8);
            j = j + 1;
        }
        r.push((value % 256) as u8);
        proof {
            assert(r@[8] == value as nat % 256);
            lemma_decode_nine(r@, w as nat, 0);
            vstd::arithmetic::div_mod::lemma_basic_div(w as int, pow128(8) as int);
            assert((w as nat) * 256 + r@[8] == value);
        }
    } else {
        // Shortest form: find how many 7-bit chunks `value` needs.
        let mut k: usize = 1;
        let mut t: u64 = value;
        proof {
            vstd::arithmetic::div_mod::lemma_div_basics(value as int);
            assert(pow128(0) == 1);
        }
        while t >= 128
            invariant
                1 <= k <= 8,
                value < pow128(8),
                t as nat == value as nat / pow128((k - 1) as nat),
                spec_varint_len(value as nat) == (k - 1) + spec_varint_len(t as nat),
            decreases t,
        {
            proof {
                let a = pow128((k - 1) as nat);
                assert(a > 0) by {
                    lemma_pow128_mono(0, (k - 1) as nat);
                }
                vstd::arithmetic::div_mod::lemma_div_denominator(value as int, a as int, 128);
                assert(pow128(k as nat) == 128 * a);
                // t >= 128 means value >= 128 * a, so k never passes 8.
                let q = value as int / a as int;
                vstd::arithmetic::div_mod::lemma_fundamental_div_mod(value as int, a as int);
                assert(value as int == a * q + value as int % a as int);
                assert(a * q >= a * 128) by (nonlinear_arith)
                    requires
                        q >= 128,
                        a > 0,
                ;
                if k == 8 {
                    assert(value >= pow128(8));
                    assert(false);
                }
            }
            t = t / 128;
            k = k + 1;
        }
        // Now t < 128, so value < pow128(k) and the length is exactly k.
        proof {
            let a = pow128((k - 1) as nat);
            assert(a > 0) by {
                lemma_pow128_mono(0, (k - 1) as nat);
            }
            assert(pow128(k as nat) == 128 * a);
            assert(value as int == a * (value as int / a as int) + value as int % a as int);
            assert(a * (value as int / a as int) <= a * 127) by (nonlinear_arith)
                requires
                    value as int / a as int <= 127,
                    a > 0,
            ;
            assert(value < pow128(k as nat));
        }
        let kk = k;
        let mut j: usize = 0;
        while j + 1 < kk
            invariant
                kk == k,
                1 <= kk <= 8,
                j < kk,
                value < pow128(kk as nat),
                r@.len() == j,
                forall|u: int|
                    0 <= u < j ==> r@[u] == 128 + ((value as nat) / pow128(
                        (kk - 1 - u) as nat,
                    )) % 128,
            decreases kk - j,
        {
            let p = pow128_exec(kk - 1 - j);
            let chunk = (value / p) % 128;
            r.push((128 + chunk) as u8);
            j = j + 1;
        }
        r.push((value % 128) as u8);
        proof {
            assert(r@.len() == kk);
            assert(r@[kk - 1] == value as nat % 128);
            lemma_decode_short(r@, value as nat, kk as int, 0);
            vstd::arithmetic::div_mod::lemma_basic_div(value as int, pow128(kk as nat) as int);
        }
    }
    r
}

/// The big-endian integer held in `s`.
pub open spec fn spec_be_nat(s: Seq<u8>) -> nat
    decreases s.len(),
{
    if s.len() == 0 {
        0
    } else {
        (spec_be_nat(s.drop_last()) * 256 + s.last()) as nat
    }
}

proof fn lemma_be_nat_bound(s: Seq<u8>)
    ensures
        spec_be_nat(s) < pow256(s.len()),
    decreases s.len(),
{
    if s.len() > 0 {
        lemma_be_nat_bound(s.drop_last());
    }
}

/// Reads a whole slice of at most eight bytes as one big-endian integer.
pub fn read_u64_from_bytes(bytes: &[u8]) -> (r: u64)
    requires
        bytes@.len() <= 8,
    ensures
        r as nat == spec_be_nat(bytes@),
{
    let ghost s = bytes@;
    let len = bytes.len();
    let mut result: u64 = 0;
    let mut i: usize = 0;
    while i < len
        invariant
            i <= len,
            len == s.len() <= 8,
            s == bytes@,
            result as nat == spec_be_nat(s.take(i as int)),
        decreases len - i,
    {
        proof {
            lemma_be_nat_bound(s.take(i as int));
            lemma_pow256_mono(i as nat, 7);
            assert(pow256(7) == 0x100_0000_0000_0000) by {
                reveal_with_fuel(pow256, 8);
            }
        }
        let b = bytes[i];
        result = result * 256 + (b as u64);
        proof {
            assert(s.take(i + 1).drop_last() =~= s.take(i as int));
            assert(s.take(i + 1).last() == s[i as int]);
        }
        i = i + 1;
    }
    proof {
        assert(s.take(len as int) =~= s);
    }
    result
}

/// Byte weights up to the seventh stay within 56 bits.
pub proof fn lemma_pow256_le_7(i: nat)
    requires
        i <= 7,
    ensures
        pow256(i) <= 0x100_0000_0000_0000,
{
    lemma_pow256_mono(i, 7);
    assert(pow256(7) == 0x100_0000_0000_0000) by {
        reveal_with_fuel(pow256, 8);
    }
}

proof fn lemma_pow256_mono(a: nat, b: nat)
    requires
        a <= b,
    ensures
        pow256(a) <= pow256(b),
    decreases b,
{
    if a < b {
        lemma_pow256_mono(a, (b - 1) as nat);
    }
}

} // verus!
