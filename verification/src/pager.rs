//! The pager: the parsed file header, the file image, and a cache of
//! decoded pages.
//!
//! Pages are decoded at most once each: a cache hit returns the page
//! decoded earlier, unchanged, and entries are never replaced. The image
//! is immutable for the pager's lifetime, so every caller observes the
//! same decode of a given page number.

use std::collections::HashMap;

use vstd::prelude::*;
use vstd::slice::slice_subrange;

use crate::btree::{
    BTreeCell, BTreePage, IndexInteriorCell, IndexLeafCell, SpecBTreeCell, SpecBTreePage,
    TableInteriorCell, TableLeafCell,
};
use crate::bytes::{append_range, read_u32, spec_be32};
use crate::errors::DBError;
use crate::header::{parse_db_file_header, parsed_header_matches, spec_header_ok, DBHeader};
use crate::page::{parse_page, spec_parse_page, PageHeader, SpecPageCell};
use crate::record::{decode_record, spec_decode_record};

verus! {

broadcast use vstd::std_specs::hash::group_hash_axioms;

/// The bytes an overflow chain starting at page `first` contributes: each
/// page gives its next-page pointer in its first four bytes and payload in
/// the rest of its usable space, until `remaining` bytes are collected. A
/// chain that ends (pointer 0) too early is truncated; a page outside the
/// image means the file is.
pub open spec fn spec_overflow_chain(
    img: Seq<u8>,
    ps: nat,
    usable: nat,
    first: u32,
    remaining: nat,
) -> Result<Seq<u8>, DBError>
    recommends
        512 <= ps,
        257 <= usable <= ps,
    decreases remaining,
{
    if remaining == 0 {
        Ok(Seq::empty())
    } else if first == 0 {
        Err(DBError::TruncatedOverflowChain)
    } else if first * ps > img.len() || ps < 4 {
        Err(DBError::TruncatedFile)
    } else {
        let start = (first - 1) * ps;
        let next = spec_be32(img, start as int) as u32;
        let avail: nat = if usable > 4 {
            (usable - 4) as nat
        } else {
            1
        };
        let take: nat = if remaining <= avail {
            remaining
        } else {
            avail
        };
        match spec_overflow_chain(img, ps, usable, next, (remaining - take) as nat) {
            Err(e) => Err(e),
            Ok(rest) => Ok(img.subrange(start + 4, start + 4 + take) + rest),
        }
    }
}

/// A cell's whole payload: the local bytes, extended by its overflow
/// chain when it has one.
pub open spec fn spec_full_payload(
    img: Seq<u8>,
    ps: nat,
    usable: nat,
    local: Seq<u8>,
    total: u64,
    first_overflow_page: Option<u32>,
) -> Result<Seq<u8>, DBError> {
    match first_overflow_page {
        None => Ok(local),
        Some(fp) => {
            let rem: nat = if total >= local.len() {
                (total - local.len()) as nat
            } else {
                0
            };
            match spec_overflow_chain(img, ps, usable, fp, rem) {
                Err(e) => Err(e),
                Ok(rest) => Ok(local + rest),
            }
        },
    }
}

/// A raw cell completed: payload reassembled and decoded as a record.
pub open spec fn spec_complete_cell(img: Seq<u8>, ps: nat, usable: nat, c: SpecPageCell) -> Result<
    SpecBTreeCell,
    DBError,
> {
    match c {
        SpecPageCell::TableInterior { left_child_pointer, row_id } => Ok(
            SpecBTreeCell::TableInterior { left_child_page: left_child_pointer, rowid: row_id },
        ),
        SpecPageCell::TableLeaf { payload_size, row_id, payload, first_overflow_page } => {
            match spec_full_payload(img, ps, usable, payload, payload_size, first_overflow_page) {
                Err(e) => Err(e),
                Ok(full) => match spec_decode_record(full) {
                    Err(e) => Err(e),
                    Ok(vals) => Ok(
                        SpecBTreeCell::TableLeaf { row_id, record: vals, first_overflow_page },
                    ),
                },
            }
        },
        SpecPageCell::IndexLeaf { size_including_overflow, payload, first_overflow_page } => {
            match spec_full_payload(
                img,
                ps,
                usable,
                payload,
                size_including_overflow,
                first_overflow_page,
            ) {
                Err(e) => Err(e),
                Ok(full) => match spec_decode_record(full) {
                    Err(e) => Err(e),
                    Ok(vals) => Ok(SpecBTreeCell::IndexLeaf { record: vals, first_overflow_page }),
                },
            }
        },
        SpecPageCell::IndexInterior {
            left_child_pointer,
            size_including_overflow,
            payload,
            first_overflow_page,
        } => {
            match spec_full_payload(
                img,
                ps,
                usable,
                payload,
                size_including_overflow,
                first_overflow_page,
            ) {
                Err(e) => Err(e),
                Ok(full) => match spec_decode_record(full) {
                    Err(e) => Err(e),
                    Ok(vals) => Ok(
                        SpecBTreeCell::IndexInterior {
                            left_child_page: left_child_pointer,
                            record: vals,
                            first_overflow_page,
                        },
                    ),
                },
            }
        },
    }
}

/// Every cell of a page completed, in order.
pub open spec fn spec_complete_cells(
    img: Seq<u8>,
    ps: nat,
    usable: nat,
    cs: Seq<SpecPageCell>,
) -> Result<Seq<SpecBTreeCell>, DBError>
    decreases cs.len(),
{
    if cs.len() == 0 {
        Ok(Seq::empty())
    } else {
        match spec_complete_cell(img, ps, usable, cs[0]) {
            Err(e) => Err(e),
            Ok(c) => match spec_complete_cells(img, ps, usable, cs.drop_first()) {
                Err(e) => Err(e),
                Ok(rest) => Ok(seq![c] + rest),
            },
        }
    }
}

/// What reading page `n` of the image yields: the page's bytes parsed
/// and every cell completed. Pages are numbered from 1; a page that lies
/// beyond the image means the file is truncated.
#[verifier::opaque]
pub open spec fn spec_read_page_model(img: Seq<u8>, h: DBHeader, n: nat) -> Result<
    SpecBTreePage,
    DBError,
> {
    let ps = h.page_size as nat;
    let usable = h.spec_usable_size();
    if n == 0 {
        Err(DBError::PageIndexOutOfRange)
    } else if n * ps > img.len() {
        Err(DBError::TruncatedFile)
    } else {
        let raw = img.subrange(((n - 1) * ps) as int, (n * ps) as int);
        match spec_parse_page(raw, n, usable) {
            Err(e) => Err(e),
            Ok(p) => match spec_complete_cells(img, ps, usable, p.1) {
                Err(e) => Err(e),
                Ok(cells) => Ok(SpecBTreePage { header: p.0, cells }),
            },
        }
    }
}

/// `n > len / ps` says exactly that page `n` ends beyond `len` bytes.
proof fn lemma_page_bound(n: nat, ps: nat, len: nat)
    requires
        ps > 0,
    ensures
        n > len / ps <==> n * ps > len,
{
    let q = (len / ps) as int;
    vstd::arithmetic::div_mod::lemma_fundamental_div_mod(len as int, ps as int);
    vstd::arithmetic::div_mod::lemma_mod_bound(len as int, ps as int);
    if n > len / ps {
        vstd::arithmetic::mul::lemma_mul_inequality(q + 1, n as int, ps as int);
        assert((q + 1) * ps == q * ps + ps) by (nonlinear_arith);
        assert(q * ps == ps * q) by (nonlinear_arith);
    } else {
        vstd::arithmetic::mul::lemma_mul_inequality(n as int, q, ps as int);
        assert(q * ps == ps * q) by (nonlinear_arith);
    }
}

/// Page `n` spans bytes `(n - 1) * ps .. n * ps` of the image.
proof fn lemma_page_span(n: nat, ps: nat, len: nat)
    requires
        1 <= n,
        ps > 0,
        n * ps <= len,
    ensures
        (n - 1) * ps + ps == n * ps,
        (n - 1) * ps + ps <= len,
{
    assert((n - 1) * ps + ps == n * ps) by (nonlinear_arith);
}

/// Owns the file image, the parsed file header and the cache of decoded
/// pages. Decoding happens at most once per page number; the cache never
/// replaces an entry.
#[derive(Debug)]
pub struct Pager {
    /// The header parsed from the image's first 100 bytes.
    pub db_header: DBHeader,
    /// The database file's bytes, immutable for the pager's lifetime.
    pub image: Vec<u8>,
    /// Decoded pages by page number.
    pub page_cache: HashMap<usize, BTreePage>,
}

impl Pager {
    /// A pager whose header describes its image and whose every cached
    /// page equals the decode of that page's bytes.
    pub open spec fn wf(&self) -> bool {
        &&& self.db_header.wf()
        &&& self.image@.len() >= 100
        &&& parsed_header_matches(self.db_header, self.image@)
        &&& forall|n: usize|
            #[trigger] self.page_cache@.contains_key(n) ==> spec_read_page_model(
                self.image@,
                self.db_header,
                n as nat,
            ) == Ok::<SpecBTreePage, DBError>(self.page_cache@[n]@)
    }

    /// Opens a database image: validates the 100-byte header and starts
    /// with an empty cache. An image shorter than the header is a
    /// truncated file; otherwise validation fails exactly as
    /// [`parse_db_file_header`] says.
    pub fn open(image: Vec<u8>) -> (r: Result<Pager, DBError>)
        ensures
            match r {
                Ok(p) => {
                    &&& p.wf()
                    &&& p.image@ == image@
                    &&& image@.len() >= 100
                    &&& spec_header_ok(image@)
                    &&& p.page_cache@ == Map::<usize, BTreePage>::empty()
                },
                Err(e) => {
                    ||| (image@.len() < 100 && e == DBError::TruncatedFile)
                    ||| (image@.len() >= 100 && !spec_header_ok(image@)
                        && crate::header::header_error_matches(e, image@))
                },
            },
    {
        if image.len() < 100 {
            return Err(DBError::TruncatedFile);
        }
        let db_header = match parse_db_file_header(image.as_slice()) {
            Ok(h) => h,
            Err(e) => {
                return Err(e);
            },
        };
        Ok(Pager { db_header, image, page_cache: HashMap::new() })
    }

    /// Follows an overflow chain from `first_page` until `remaining`
    /// payload bytes have been collected.
    pub fn read_overflow_chain(&self, first_page: u32, remaining: u64) -> (r: Result<
        Vec<u8>,
        DBError,
    >)
        requires
            self.db_header.wf(),
        ensures
            match r {
                Ok(v) => spec_overflow_chain(
                    self.image@,
                    self.db_header.page_size as nat,
                    self.db_header.spec_usable_size(),
                    first_page,
                    remaining as nat,
                ) == Ok::<Seq<u8>, DBError>(v@),
                Err(e) => spec_overflow_chain(
                    self.image@,
                    self.db_header.page_size as nat,
                    self.db_header.spec_usable_size(),
                    first_page,
                    remaining as nat,
                ) == Err::<Seq<u8>, DBError>(e),
            },
    {
        let ghost img = self.image@;
        let ghost ps_g = self.db_header.page_size as nat;
        let ghost usable_g = self.db_header.spec_usable_size();
        let ps = self.db_header.page_size as usize;
        let usable = self.db_header.usable_size();
        let avail = (usable - 4) as u64;
        let len = self.image.len();
        let mut acc: Vec<u8> = Vec::new();
        let mut cur = first_page;
        let mut rem = remaining;
        proof {
            match spec_overflow_chain(img, ps_g, usable_g, cur, rem as nat) {
                Ok(rest) => {
                    assert(Seq::<u8>::empty() + rest =~= rest);
                },
                Err(_) => {},
            }
        }
        while rem > 0
            invariant
                self.db_header.wf(),
                img == self.image@,
                ps_g == self.db_header.page_size as nat,
                usable_g == self.db_header.spec_usable_size(),
                ps == self.db_header.page_size as usize,
                avail as nat == (usable_g - 4) as nat,
                257 <= usable_g <= ps_g <= 65536,
                len == img.len(),
                match spec_overflow_chain(img, ps_g, usable_g, cur, rem as nat) {
                    Ok(rest) => spec_overflow_chain(
                        img,
                        ps_g,
                        usable_g,
                        first_page,
                        remaining as nat,
                    ) == Ok::<Seq<u8>, DBError>(acc@ + rest),
                    Err(e) => spec_overflow_chain(
                        img,
                        ps_g,
                        usable_g,
                        first_page,
                        remaining as nat,
                    ) == Err::<Seq<u8>, DBError>(e),
                },
            decreases rem,
        {
            if cur == 0 {
                return Err(DBError::TruncatedOverflowChain);
            }
            proof {
                lemma_page_bound(cur as nat, ps_g, img.len());
            }
            if (cur as u64) > (len as u64) / (ps as u64) {
                return Err(DBError::TruncatedFile);
            }
            proof {
                lemma_page_span(cur as nat, ps_g, img.len());
            }
            let start = (cur as usize - 1) * ps;
            let mut pos = start;
            let next = read_u32(self.image.as_slice(), &mut pos);
            let take = if rem < avail {
                rem
            } else {
                avail
            };
            let take_us = take as usize;
            let ghost old_acc = acc@;
            append_range(&mut acc, self.image.as_slice(), start + 4, start + 4 + take_us);
            proof {
                assert(acc@ =~= old_acc + img.subrange(
                    start + 4,
                    start + 4 + take_us,
                ));
                match spec_overflow_chain(
                    img,
                    ps_g,
                    usable_g,
                    next,
                    (rem - take) as nat,
                ) {
                    Ok(rest) => {
                        assert(old_acc + (img.subrange(start + 4, start + 4 + take_us) + rest)
                            =~= acc@ + rest);
                    },
                    Err(_) => {},
                }
            }
            rem = rem - take;
            cur = next;
        }
        proof {
            assert(acc@ + Seq::<u8>::empty() =~= acc@);
        }
        Ok(acc)
    }

    /// The local bytes of one cell payload, extended by its overflow
    /// chain when it has one.
    fn full_payload(&self, local: &[u8], total: u64, first_overflow_page: Option<u32>) -> (r:
        Result<Vec<u8>, DBError>)
        requires
            self.db_header.wf(),
        ensures
            match r {
                Ok(v) => spec_full_payload(
                    self.image@,
                    self.db_header.page_size as nat,
                    self.db_header.spec_usable_size(),
                    local@,
                    total,
                    first_overflow_page,
                ) == Ok::<Seq<u8>, DBError>(v@),
                Err(e) => spec_full_payload(
                    self.image@,
                    self.db_header.page_size as nat,
                    self.db_header.spec_usable_size(),
                    local@,
                    total,
                    first_overflow_page,
                ) == Err::<Seq<u8>, DBError>(e),
            },
    {
        match first_overflow_page {
            None => {
                let mut v: Vec<u8> = Vec::new();
                append_range(&mut v, local, 0, local.len());
                proof {
                    assert(v@ =~= local@);
                }
                Ok(v)
            },
            Some(fp) => {
                let rem = if total >= local.len() as u64 {
                    total - local.len() as u64
                } else {
                    0
                };
                match self.read_overflow_chain(fp, rem) {
                    Err(e) => Err(e),
                    Ok(rest) => {
                        let mut v: Vec<u8> = Vec::new();
                        append_range(&mut v, local, 0, local.len());
                        append_range(&mut v, rest.as_slice(), 0, rest.len());
                        proof {
                            assert(v@ =~= local@ + rest@);
                        }
                        Ok(v)
                    },
                }
            },
        }
    }

    /// Serves page `page_index` (1-based), decoding it on the first
    /// request and answering every later one from the cache.
    ///
    /// A cache hit leaves the pager unchanged and returns the page as it
    /// was first decoded; a miss decodes the page's bytes exactly once
    /// and caches the result. Entries are never replaced, so for one
    /// pager at most one decode of a given page number is ever observed.
    #[verifier::rlimit(60)]
    pub fn read_page(&mut self, page_index: usize) -> (r: Result<BTreePage, DBError>)
        requires
            old(self).wf(),
        ensures
            final(self).wf(),
            final(self).image@ == old(self).image@,
            final(self).db_header == old(self).db_header,
            match r {
                Ok(page) => {
                    &&& spec_read_page_model(
                        old(self).image@,
                        old(self).db_header,
                        page_index as nat,
                    ) == Ok::<SpecBTreePage, DBError>(page@)
                    &&& final(self).page_cache@.contains_key(page_index)
                    &&& (old(self).page_cache@.contains_key(page_index) ==> final(self).page_cache@ == old(self).page_cache@)
                    &&& final(self).page_cache@.dom() == old(self).page_cache@.dom().insert(
                        page_index,
                    )
                    &&& forall|k: usize|
                        #[trigger] old(self).page_cache@.contains_key(k) ==> final(self).page_cache@[k] == old(self).page_cache@[k]
                },
                Err(e) => {
                    &&& spec_read_page_model(
                        old(self).image@,
                        old(self).db_header,
                        page_index as nat,
                    ) == Err::<SpecBTreePage, DBError>(e)
                    &&& final(self).page_cache@ == old(self).page_cache@
                },
            },
    {
        let ghost img = self.image@;
        let ghost h = self.db_header;
        let ghost ps_g = self.db_header.page_size as nat;
        let ghost usable_g = self.db_header.spec_usable_size();
        proof {
            reveal(spec_read_page_model);
        }

        match self.page_cache.get(&page_index) {
            Some(p) => {
                let page = p.clone();
                proof {
                    assert(old(self).page_cache@.dom().insert(page_index)
                        =~= old(self).page_cache@.dom());
                }
                return Ok(page);
            },
            None => {},
        }

        if page_index == 0 {
            return Err(DBError::PageIndexOutOfRange);
        }
        let ps = self.db_header.page_size as usize;
        let usable = self.db_header.usable_size();
        let len = self.image.len();
        proof {
            lemma_page_bound(page_index as nat, ps_g, img.len());
        }
        if (page_index as u64) > (len as u64) / (ps as u64) {
            return Err(DBError::TruncatedFile);
        }
        proof {
            lemma_page_span(page_index as nat, ps_g, img.len());
        }
        let start = (page_index - 1) * ps;
        let page_slice = slice_subrange(self.image.as_slice(), start, start + ps);
        let (header, raw_cells) = match parse_page(page_slice, page_index, usable) {
            Ok(p) => p,
            Err(e) => {
                return Err(e);
            },
        };
        let ghost spec_cells = raw_cells@.map_values(|c: crate::page::PageCell| c@);

        let mut cells: Vec<BTreeCell> = Vec::new();
        let mut i: usize = 0;
        proof {
            assert(spec_cells.skip(0) =~= spec_cells);
            match spec_complete_cells(img, ps_g, usable_g, spec_cells) {
                Ok(rest) => {
                    assert(Seq::<BTreeCell>::empty().map_values(|c: BTreeCell| c@) + rest
                        =~= rest);
                },
                Err(_) => {},
            }
        }
        while i < raw_cells.len()
            invariant
                *self == *old(self),
                self.wf(),
                img == self.image@,
                h == self.db_header,
                ps_g == self.db_header.page_size as nat,
                usable_g == self.db_header.spec_usable_size(),
                i <= raw_cells@.len(),
                cells@.len() == i,
                spec_cells == raw_cells@.map_values(|c: crate::page::PageCell| c@),
                match spec_complete_cells(img, ps_g, usable_g, spec_cells.skip(i as int)) {
                    Ok(rest) => spec_complete_cells(img, ps_g, usable_g, spec_cells) == Ok::<
                        Seq<SpecBTreeCell>,
                        DBError,
                    >(cells@.map_values(|c: BTreeCell| c@) + rest),
                    Err(e) => spec_complete_cells(img, ps_g, usable_g, spec_cells) == Err::<
                        Seq<SpecBTreeCell>,
                        DBError,
                    >(e),
                },
                match spec_complete_cells(img, ps_g, usable_g, spec_cells) {
                    Ok(bc) => spec_read_page_model(img, h, page_index as nat) == Ok::<
                        SpecBTreePage,
                        DBError,
                    >(SpecBTreePage { header, cells: bc }),
                    Err(e) => spec_read_page_model(img, h, page_index as nat) == Err::<
                        SpecBTreePage,
                        DBError,
                    >(e),
                },
            decreases raw_cells@.len() - i,
        {
            proof {
                assert(spec_cells.skip(i as int)[0] == spec_cells[i as int]);
                assert(spec_cells[i as int] == raw_cells@[i as int]@);
                assert(spec_cells.skip(i as int).drop_first() =~= spec_cells.skip(i + 1));
            }
            let completed = match &raw_cells[i] {
                crate::page::PageCell::TableInteriorCell(c) => BTreeCell::TableInteriorCell(
                    TableInteriorCell { left_child_page: c.left_child_pointer, rowid: c.row_id },
                ),
                crate::page::PageCell::TableLeafCell(c) => {
                    let full = match self.full_payload(
                        c.payload.as_slice(),
                        c.payload_size,
                        c.first_overflow_page,
                    ) {
                        Ok(v) => v,
                        Err(e) => {
                            return Err(e);
                        },
                    };
                    let record = match decode_record(full.as_slice()) {
                        Ok(r) => r,
                        Err(e) => {
                            return Err(e);
                        },
                    };
                    BTreeCell::TableLeafCell(
                        TableLeafCell {
                            row_id: c.row_id,
                            record,
                            first_overflow_page: c.first_overflow_page,
                        },
                    )
                },
                crate::page::PageCell::IndexLeafCell(c) => {
                    let full = match self.full_payload(
                        c.payload.as_slice(),
                        c.size_including_overflow,
                        c.first_overflow_page,
                    ) {
                        Ok(v) => v,
                        Err(e) => {
                            return Err(e);
                        },
                    };
                    let record = match decode_record(full.as_slice()) {
                        Ok(r) => r,
                        Err(e) => {
                            return Err(e);
                        },
                    };
                    BTreeCell::IndexLeafCell(
                        IndexLeafCell { record, first_overflow_page: c.first_overflow_page },
                    )
                },
                crate::page::PageCell::IndexInteriorCell(c) => {
                    let full = match self.full_payload(
                        c.payload.as_slice(),
                        c.size_including_overflow,
                        c.first_overflow_page,
                    ) {
                        Ok(v) => v,
                        Err(e) => {
                            return Err(e);
                        },
                    };
                    let record = match decode_record(full.as_slice()) {
                        Ok(r) => r,
                        Err(e) => {
                            return Err(e);
                        },
                    };
                    BTreeCell::IndexInteriorCell(
                        IndexInteriorCell {
                            left_child_page: c.left_child_pointer,
                            record,
                            first_overflow_page: c.first_overflow_page,
                        },
                    )
                },
            };
            let ghost old_cells = cells@;
            cells.push(completed);
            proof {
                match spec_complete_cells(img, ps_g, usable_g, spec_cells.skip(i + 1)) {
                    Ok(rest) => {
                        assert(old_cells.map_values(|c: BTreeCell| c@) + (seq![completed@] + rest)
                            =~= cells@.map_values(|c: BTreeCell| c@) + rest);
                    },
                    Err(_) => {},
                }
            }
            i = i + 1;
        }
        proof {
            assert(spec_cells.skip(i as int) =~= Seq::<SpecPageCell>::empty());
            assert(cells@.map_values(|c: BTreeCell| c@) + Seq::<SpecBTreeCell>::empty() =~= cells@
                .map_values(|c: BTreeCell| c@));
        }
        let page = BTreePage { header, cells };
        let stored = page.clone();
        self.page_cache.insert(page_index, stored);
        proof {
            assert forall|n: usize| #[trigger]
                self.page_cache@.contains_key(n) implies spec_read_page_model(
                self.image@,
                self.db_header,
                n as nat,
            ) == Ok::<SpecBTreePage, DBError>(self.page_cache@[n]@) by {
                if n != page_index {
                    assert(old(self).page_cache@.contains_key(n));
                }
            }
            assert(self.page_cache@.dom() =~= old(self).page_cache@.dom().insert(page_index));
        }
        Ok(page)
    }
}

} // verus!
