//! The encoder-side split of an oversized payload, and the proof that
//! an overflow chain laid out from that split reassembles the payload
//! exactly.

use vstd::prelude::*;

use crate::bytes::{copy_range, spec_be32};
use crate::errors::DBError;
use crate::page::{spec_local_len, spec_max_local, spec_min_local};
use crate::pager::spec_overflow_chain;

verus! {

/// The bytes of a payload that stay on the B-tree page.
pub open spec fn spec_split_local(usable: nat, p: Seq<u8>) -> Seq<u8>
    recommends
        257 <= usable,
{
    p.take(spec_local_len(usable, p.len()) as int)
}

/// The chunk of payload one overflow page holds: its usable space less
/// the four bytes of next-page pointer.
pub open spec fn spec_chunk_cap(usable: nat) -> nat {
    if usable > 4 {
        (usable - 4) as nat
    } else {
        1
    }
}

/// The overflowed remainder of a payload, cut into the chunks the
/// overflow pages will hold, in order.
pub open spec fn spec_overflow_chunks(usable: nat, rest: Seq<u8>) -> Seq<Seq<u8>>
    decreases rest.len(),
{
    if rest.len() == 0 {
        Seq::empty()
    } else {
        let take: int = if rest.len() <= spec_chunk_cap(usable) {
            rest.len() as int
        } else {
            spec_chunk_cap(usable) as int
        };
        seq![rest.take(take)] + spec_overflow_chunks(usable, rest.skip(take))
    }
}

/// The payload stored locally never exceeds the payload itself, and an
/// overflowing payload keeps at least seven bytes local.
pub proof fn lemma_min_local_le_max_local(usable: nat)
    requires
        257 <= usable <= 65536,
    ensures
        7 <= spec_min_local(usable),
        spec_min_local(usable) <= spec_max_local(usable),
{
    let x = (usable - 12) as int;
    vstd::arithmetic::div_mod::lemma_div_is_ordered(7840, 32 * x, 255);
    vstd::arithmetic::div_mod::lemma_div_is_ordered(32 * x, 255 * x, 255);
    vstd::arithmetic::div_mod::lemma_div_multiples_vanish(x, 255);
    assert(x * 32 == 32 * x);
    assert(x * 255 == 255 * x);
}

/// Splits a payload by the format's rule: if it fits within the page's
/// local capacity it all stays local and there are no chunks; otherwise
/// the computed local prefix stays and the rest is cut into
/// page-sized chunks for the overflow chain.
pub fn split_payload(payload: &[u8], usable_size: u32) -> (r: (Vec<u8>, Vec<Vec<u8>>))
    requires
        257 <= usable_size <= 65536,
    ensures
        r.0@ == spec_split_local(usable_size as nat, payload@),
        r.1@.map_values(|c: Vec<u8>| c@) == spec_overflow_chunks(
            usable_size as nat,
            payload@.skip(spec_local_len(usable_size as nat, payload@.len()) as int),
        ),
        payload@.len() <= spec_max_local(usable_size as nat) ==> r.1@.len() == 0,
{
    let ghost s = payload@;
    let len = payload.len();
    let max_local = (usable_size - 35) as usize;
    proof {
        vstd::arithmetic::div_mod::lemma_div_is_ordered(7840, (usable_size - 12) as int * 32, 255);
    }
    let local_len: usize = if len <= max_local {
        len
    } else {
        ((usable_size - 12) as usize * 32 / 255 - 23) as usize
    };
    proof {
        if len > max_local {
            lemma_min_local_le_max_local(usable_size as nat);
        }
    }
    let local = copy_range(payload, 0, local_len);
    let cap = (usable_size - 4) as usize;
    let mut chunks: Vec<Vec<u8>> = Vec::new();
    let mut pos = local_len;
    proof {
        assert(s.skip(local_len as int) =~= s.subrange(local_len as int, s.len() as int));
        assert(Seq::<Seq<u8>>::empty() + spec_overflow_chunks(usable_size as nat, s.skip(pos as int))
            =~= spec_overflow_chunks(usable_size as nat, s.skip(pos as int)));
    }
    while pos < len
        invariant
            local_len <= pos <= len,
            len == s.len(),
            s == payload@,
            257 <= usable_size <= 65536,
            cap == usable_size - 4,
            chunks@.map_values(|c: Vec<u8>| c@) + spec_overflow_chunks(
                usable_size as nat,
                s.skip(pos as int),
            ) =~= spec_overflow_chunks(usable_size as nat, s.skip(local_len as int)),
        decreases len - pos,
    {
        let take = if len - pos < cap {
            len - pos
        } else {
            cap
        };
        let chunk = copy_range(payload, pos, pos + take);
        let ghost old_chunks = chunks@;
        chunks.push(chunk);
        proof {
            assert(s.skip(pos as int).take(take as int) =~= s.subrange(
                pos as int,
                pos + take,
            ));
            assert(s.skip(pos as int).skip(take as int) =~= s.skip(pos + take));
            assert(chunks@.map_values(|c: Vec<u8>| c@) =~= old_chunks.map_values(
                |c: Vec<u8>| c@,
            ) + seq![s.subrange(pos as int, pos + take)]);
            assert(old_chunks.map_values(|c: Vec<u8>| c@) + (seq![
                s.subrange(pos as int, pos + take),
            ] + spec_overflow_chunks(usable_size as nat, s.skip(pos + take))) =~= chunks@
                .map_values(|c: Vec<u8>| c@) + spec_overflow_chunks(
                usable_size as nat,
                s.skip(pos + take),
            ));
        }
        pos = pos + take;
    }
    proof {
        assert(s.skip(pos as int) =~= Seq::<u8>::empty());
        assert(chunks@.map_values(|c: Vec<u8>| c@) + Seq::<Seq<u8>>::empty() =~= chunks@
            .map_values(|c: Vec<u8>| c@));
    }
    (local, chunks)
}

/// A chain of overflow pages that holds the given chunks: each page is
/// inside the image, starts with the next page's number (zero on the
/// last) and carries its chunk right after.
pub open spec fn spec_chain_laid_out(
    img: Seq<u8>,
    ps: nat,
    pages: Seq<u32>,
    chunks: Seq<Seq<u8>>,
) -> bool {
    &&& pages.len() == chunks.len()
    &&& forall|i: int|
        0 <= i < pages.len() ==> {
            let start = ((#[trigger] pages[i] - 1) * ps) as int;
            &&& pages[i] != 0
            &&& pages[i] * ps <= img.len()
            &&& spec_be32(img, start) == (if i + 1 < pages.len() {
                pages[i + 1] as nat
            } else {
                0nat
            })
            &&& img.subrange(start + 4, start + 4 + chunks[i].len()) == chunks[i]
        }
}

/// Following an overflow chain that lays out the chunks of `rest`
/// yields exactly `rest`.
proof fn lemma_chain_reads_chunks(img: Seq<u8>, ps: nat, usable: nat, rest: Seq<u8>, pages: Seq<
    u32,
>)
    requires
        512 <= ps <= 65536,
        257 <= usable <= ps,
        rest.len() >= 1,
        spec_chain_laid_out(img, ps, pages, spec_overflow_chunks(usable, rest)),
    ensures
        spec_overflow_chain(img, ps, usable, pages[0], rest.len() as nat) == Ok::<
            Seq<u8>,
            DBError,
        >(rest),
    decreases rest.len(),
{
    let chunks = spec_overflow_chunks(usable, rest);
    let cap = spec_chunk_cap(usable);
    let take: int = if rest.len() <= cap {
        rest.len() as int
    } else {
        cap as int
    };
    assert(chunks[0] == rest.take(take));
    assert(chunks[0].len() == take);
    let first = pages[0];
    let start = ((first - 1) * ps) as int;
    assert(first != 0 && first * ps <= img.len());
    let next = spec_be32(img, start) as u32;
    assert(img.subrange(start + 4, start + 4 + take) == rest.take(take));
    if rest.len() > take {
        let rest2 = rest.skip(take);
        assert(spec_overflow_chunks(usable, rest2) == chunks.drop_first());
        assert(chunks.len() >= 2) by {
            assert(spec_overflow_chunks(usable, rest2).len() >= 1);
        }
        assert(next == pages[1]);
        let pages2 = pages.drop_first();
        assert(spec_chain_laid_out(img, ps, pages2, spec_overflow_chunks(usable, rest2))) by {
            assert forall|i: int| 0 <= i < pages2.len() implies {
                let start2 = ((#[trigger] pages2[i] - 1) * ps) as int;
                &&& pages2[i] != 0
                &&& pages2[i] * ps <= img.len()
                &&& spec_be32(img, start2) == (if i + 1 < pages2.len() {
                    pages2[i + 1] as nat
                } else {
                    0nat
                })
                &&& img.subrange(
                    start2 + 4,
                    start2 + 4 + spec_overflow_chunks(usable, rest2)[i].len(),
                ) == spec_overflow_chunks(usable, rest2)[i]
            } by {
                assert(pages2[i] == pages[i + 1]);
                assert(spec_overflow_chunks(usable, rest2)[i] == chunks[i + 1]);
            }
        }
        lemma_chain_reads_chunks(img, ps, usable, rest2, pages2);
        assert(spec_overflow_chain(img, ps, usable, next, rest2.len() as nat) == Ok::<
            Seq<u8>,
            DBError,
        >(rest2));
        assert(rest.take(take) + rest.skip(take) =~= rest);
    } else {
        assert(take == rest.len());
        assert(spec_overflow_chain(img, ps, usable, next, 0) == Ok::<Seq<u8>, DBError>(
            Seq::empty(),
        ));
        assert(rest.take(take) + Seq::<u8>::empty() =~= rest);
    }
}

/// Overflow round trip: a payload larger than the page's local capacity,
/// split by the encoder-side formula and laid out on an overflow chain,
/// is reassembled byte for byte: the local prefix plus what the chain
/// yields equal the original payload.
pub proof fn lemma_overflow_round_trip(
    img: Seq<u8>,
    ps: nat,
    usable: nat,
    payload: Seq<u8>,
    pages: Seq<u32>,
)
    requires
        512 <= ps <= 65536,
        257 <= usable <= ps,
        payload.len() > spec_max_local(usable),
        spec_chain_laid_out(
            img,
            ps,
            pages,
            spec_overflow_chunks(
                usable,
                payload.skip(spec_local_len(usable, payload.len()) as int),
            ),
        ),
    ensures
        spec_overflow_chain(
            img,
            ps,
            usable,
            pages[0],
            (payload.len() - spec_local_len(usable, payload.len())) as nat,
        ) == Ok::<Seq<u8>, DBError>(payload.skip(spec_local_len(usable, payload.len()) as int)),
        spec_split_local(usable, payload) + payload.skip(
            spec_local_len(usable, payload.len()) as int,
        ) == payload,
{
    lemma_min_local_le_max_local(usable);
    let ll = spec_local_len(usable, payload.len()) as int;
    let rest = payload.skip(ll);
    assert(rest.len() >= 1);
    lemma_chain_reads_chunks(img, ps, usable, rest, pages);
    assert(payload.take(ll) + payload.skip(ll) =~= payload);
}

} // verus!
