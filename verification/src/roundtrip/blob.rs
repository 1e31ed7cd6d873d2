//! The header and the memory reservations of a blob that the serialiser
//! has written.

use super::embed::{lemma_stands_split, lemma_token_stands, stands_at};
use crate::bytes::{
    be_u64, lemma_be_u64_of_encoding, lemma_u32_be_len, lemma_u64_be_len, u32_be, u64_be,
};
use crate::fdt::{
    hdr_boot_cpuid_phys, hdr_last_comp_version, hdr_magic, hdr_off_dt_strings, hdr_off_dt_struct,
    hdr_off_mem_rsvmap, hdr_size_dt_strings, hdr_size_dt_struct, hdr_totalsize, hdr_version,
    reservations_from, FDT_MAGIC,
};
use crate::writer::{header_bytes, reservation_block, LAST_COMP_VERSION, LAST_VERSION};
use crate::model::canonical::no_zero_pair;
use vstd::prelude::*;

verus! {

/// The reservation block takes sixteen bytes for each reservation and for
/// the pair of zeros.
pub proof fn lemma_reservation_block_len(rs: Seq<(u64, u64)>)
    ensures
        reservation_block(rs).len() == 16 * (rs.len() + 1),
    decreases rs.len(),
{
    lemma_u64_be_len(0);
    if rs.len() > 0 {
        lemma_u64_be_len(rs[0].0);
        lemma_u64_be_len(rs[0].1);
        lemma_reservation_block_len(rs.skip(1));
    }
}

/// Where a pair of 64-bit values stands, it is read.
pub proof fn lemma_pair_stands(b: Seq<u8>, at: int, x: u64, y: u64)
    requires
        stands_at(b, at, u64_be(x) + u64_be(y)),
    ensures
        at + 16 <= b.len(),
        be_u64(b, at) == x,
        be_u64(b, at + 8) == y,
{
    lemma_u64_be_len(x);
    lemma_u64_be_len(y);
    lemma_stands_split(b, at, u64_be(x), u64_be(y));
    lemma_be_u64_of_encoding(b, at, x);
    lemma_be_u64_of_encoding(b, at + 8, y);
}

/// Where the reservation block of `rs` stands, `rs` are read.
pub proof fn lemma_reservations_read(b: Seq<u8>, at: int, rs: Seq<(u64, u64)>)
    requires
        stands_at(b, at, reservation_block(rs)),
        no_zero_pair(rs),
    ensures
        reservations_from(b, at) == rs,
    decreases rs.len(),
{
    if rs.len() == 0 {
        lemma_pair_stands(b, at, 0, 0);
        assert(reservations_from(b, at) =~= rs);
    } else {
        let head = u64_be(rs[0].0) + u64_be(rs[0].1);
        let rest = reservation_block(rs.skip(1));
        assert(reservation_block(rs) =~= head + rest);
        lemma_stands_split(b, at, head, rest);
        lemma_pair_stands(b, at, rs[0].0, rs[0].1);
        lemma_u64_be_len(rs[0].0);
        lemma_u64_be_len(rs[0].1);
        assert forall|i: int| 0 <= i < rs.skip(1).len() implies !((#[trigger] rs.skip(1)[i]).0
            == 0 && rs.skip(1)[i].1 == 0) by {
            assert(rs.skip(1)[i] == rs[i + 1]);
        }
        lemma_reservations_read(b, at + 16, rs.skip(1));
        assert(rs[0] == (rs[0].0, rs[0].1));
        assert(reservations_from(b, at) =~= seq![rs[0]] + rs.skip(1));
        assert(seq![rs[0]] + rs.skip(1) =~= rs);
    }
}

/// Where a header stands at the start of a blob, its fields are read.
pub proof fn lemma_header_read(
    b: Seq<u8>,
    totalsize: u32,
    off_dt_struct: u32,
    off_dt_strings: u32,
    size_dt_strings: u32,
    size_dt_struct: u32,
)
    requires
        stands_at(
            b,
            0,
            header_bytes(totalsize, off_dt_struct, off_dt_strings, size_dt_strings, size_dt_struct),
        ),
    ensures
        b.len() >= 40,
        header_bytes(
            totalsize,
            off_dt_struct,
            off_dt_strings,
            size_dt_strings,
            size_dt_struct,
        ).len() == 40,
        hdr_magic(b) == FDT_MAGIC,
        hdr_totalsize(b) == totalsize,
        hdr_off_dt_struct(b) == off_dt_struct,
        hdr_off_dt_strings(b) == off_dt_strings,
        hdr_off_mem_rsvmap(b) == 40,
        hdr_version(b) == LAST_VERSION,
        hdr_last_comp_version(b) == LAST_COMP_VERSION,
        hdr_boot_cpuid_phys(b) == 0,
        hdr_size_dt_strings(b) == size_dt_strings,
        hdr_size_dt_struct(b) == size_dt_struct,
{
    let f0 = u32_be(FDT_MAGIC);
    let f1 = u32_be(totalsize);
    let f2 = u32_be(off_dt_struct);
    let f3 = u32_be(off_dt_strings);
    let f4 = u32_be(40);
    let f5 = u32_be(LAST_VERSION);
    let f6 = u32_be(LAST_COMP_VERSION);
    let f7 = u32_be(0);
    let f8 = u32_be(size_dt_strings);
    let f9 = u32_be(size_dt_struct);
    lemma_u32_be_len(FDT_MAGIC);
    lemma_u32_be_len(totalsize);
    lemma_u32_be_len(off_dt_struct);
    lemma_u32_be_len(off_dt_strings);
    lemma_u32_be_len(40);
    lemma_u32_be_len(LAST_VERSION);
    lemma_u32_be_len(LAST_COMP_VERSION);
    lemma_u32_be_len(0);
    lemma_u32_be_len(size_dt_strings);
    lemma_u32_be_len(size_dt_struct);
    let h = header_bytes(totalsize, off_dt_struct, off_dt_strings, size_dt_strings, size_dt_struct);
    assert(h == f0 + f1 + f2 + f3 + f4 + f5 + f6 + f7 + f8 + f9);
    lemma_stands_split(b, 0, f0 + f1 + f2 + f3 + f4 + f5 + f6 + f7 + f8, f9);
    lemma_stands_split(b, 0, f0 + f1 + f2 + f3 + f4 + f5 + f6 + f7, f8);
    lemma_stands_split(b, 0, f0 + f1 + f2 + f3 + f4 + f5 + f6, f7);
    lemma_stands_split(b, 0, f0 + f1 + f2 + f3 + f4 + f5, f6);
    lemma_stands_split(b, 0, f0 + f1 + f2 + f3 + f4, f5);
    lemma_stands_split(b, 0, f0 + f1 + f2 + f3, f4);
    lemma_stands_split(b, 0, f0 + f1 + f2, f3);
    lemma_stands_split(b, 0, f0 + f1, f2);
    lemma_stands_split(b, 0, f0, f1);
    lemma_token_stands(b, 0, FDT_MAGIC);
    lemma_token_stands(b, 4, totalsize);
    lemma_token_stands(b, 8, off_dt_struct);
    lemma_token_stands(b, 12, off_dt_strings);
    lemma_token_stands(b, 16, 40);
    lemma_token_stands(b, 20, LAST_VERSION);
    lemma_token_stands(b, 24, LAST_COMP_VERSION);
    lemma_token_stands(b, 28, 0);
    lemma_token_stands(b, 32, size_dt_strings);
    lemma_token_stands(b, 36, size_dt_struct);
}

} // verus!
