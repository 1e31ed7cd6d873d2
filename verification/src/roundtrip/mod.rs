//! A tree that is serialised and read back is the same tree.
//!
//! [`lemma_read_back`] states it, for the trees that
//! [`tree_canonical`](crate::model::canonical::tree_canonical) describes;
//! the other modules hold its proof.

pub mod blob;
pub mod embed;
pub mod layout;
pub mod reading;
pub mod strings;
pub mod tree;

use crate::bytes::{lemma_u32_be_len, u32_be};
use crate::error::Fault;
use crate::fdt::{header_fault, hdr_off_mem_rsvmap, root_offset, FDT_END};
use crate::model::{model_tree, TreeView};
use crate::writer::{
    dtb_bytes, dtb_fits, header_bytes, name_table_bytes, reservation_block, write_root_spec,
};
use blob::{lemma_header_read, lemma_reservation_block_len, lemma_reservations_read};
use crate::model::canonical::{lemma_canonical_unfold, node_canonical, tree_canonical};
use embed::{lemma_stands_split, stands_at};
use layout::{node_bytes, node_names};
use reading::lemma_node_shape;
use strings::{lemma_prefix_refl, strings_hold};
use tree::lemma_node_read;
use vstd::prelude::*;

verus! {

/// Where the structure block stands in the blob of `t`.
pub open spec fn structure_place(t: TreeView) -> int {
    40 + reservation_block(t.reservations).len() as int
}

/// Where the strings block stands in the blob of `t`.
pub open spec fn strings_place(t: TreeView) -> int {
    structure_place(t) + write_root_spec(t.root).structure.len() as int
}

/// The header of the blob of `t`.
pub open spec fn blob_header(t: TreeView) -> Seq<u8> {
    header_bytes(
        (strings_place(t) + name_table_bytes(write_root_spec(t.root).names).len()) as u32,
        structure_place(t) as u32,
        strings_place(t) as u32,
        name_table_bytes(write_root_spec(t.root).names).len() as u32,
        write_root_spec(t.root).structure.len() as u32,
    )
}

/// The blob of `t` holds its four parts, one after the other.
pub proof fn lemma_blob_parts(t: TreeView)
    ensures
        dtb_bytes(t).len() == crate::writer::dtb_size(t),
        blob_header(t).len() == 40,
        stands_at(dtb_bytes(t), 0, blob_header(t)),
        stands_at(dtb_bytes(t), 40, reservation_block(t.reservations)),
        stands_at(dtb_bytes(t), structure_place(t), write_root_spec(t.root).structure),
        stands_at(
            dtb_bytes(t),
            strings_place(t),
            name_table_bytes(write_root_spec(t.root).names),
        ),
{
    let b = dtb_bytes(t);
    let header = blob_header(t);
    let reservations = reservation_block(t.reservations);
    let structure = write_root_spec(t.root).structure;
    let strings = name_table_bytes(write_root_spec(t.root).names);
    assert(header.len() == 40) by {
        lemma_u32_be_len(crate::fdt::FDT_MAGIC);
        lemma_u32_be_len((strings_place(t) + strings.len()) as u32);
        lemma_u32_be_len(structure_place(t) as u32);
        lemma_u32_be_len(strings_place(t) as u32);
        lemma_u32_be_len(40);
        lemma_u32_be_len(crate::writer::LAST_VERSION);
        lemma_u32_be_len(crate::writer::LAST_COMP_VERSION);
        lemma_u32_be_len(0);
        lemma_u32_be_len(strings.len() as u32);
        lemma_u32_be_len(structure.len() as u32);
    }
    assert(b == header + reservations + structure + strings);
    assert(b =~= header + (reservations + (structure + strings)));
    assert(b.subrange(0, b.len() as int) =~= b);
    lemma_stands_split(b, 0, header, reservations + (structure + strings));
    lemma_stands_split(b, 40, reservations, structure + strings);
    lemma_stands_split(b, structure_place(t), structure, strings);
}

/// The blob of a tree that fits passes the header checks, and its header
/// says where the blocks stand.
pub proof fn lemma_blob_header(t: TreeView)
    requires
        dtb_fits(t),
    ensures
        dtb_bytes(t).len() <= u32::MAX,
        header_fault(dtb_bytes(t)) is None,
        hdr_off_mem_rsvmap(dtb_bytes(t)) == 40,
        crate::fdt::hdr_off_dt_struct(dtb_bytes(t)) == structure_place(t),
        crate::fdt::hdr_off_dt_strings(dtb_bytes(t)) == strings_place(t),
        crate::fdt::hdr_size_dt_strings(dtb_bytes(t)) == name_table_bytes(
            write_root_spec(t.root).names,
        ).len(),
        structure_place(t) % 4 == 0,
{
    let b = dtb_bytes(t);
    let strings = name_table_bytes(write_root_spec(t.root).names);
    let structure = write_root_spec(t.root).structure;
    lemma_blob_parts(t);
    lemma_reservation_block_len(t.reservations);
    lemma_header_read(
        b,
        (strings_place(t) + strings.len()) as u32,
        structure_place(t) as u32,
        strings_place(t) as u32,
        strings.len() as u32,
        structure.len() as u32,
    );
}

/// A tree that is serialised and read back is the same tree: its blob
/// passes the header checks, and what is read from the blob is the tree
/// again, with its names, values and memory reservations, each in its
/// place.
pub proof fn lemma_read_back(t: TreeView)
    requires
        tree_canonical(t),
        dtb_fits(t),
    ensures
        header_fault(dtb_bytes(t)) is None,
        model_tree(dtb_bytes(t)) == Ok::<TreeView, Fault>(t),
{
    let b = dtb_bytes(t);
    lemma_blob_parts(t);
    lemma_blob_header(t);
    lemma_reservations_read(b, 40, t.reservations);
    lemma_root_read(t);
}

/// What is read at the start of the structure block of the blob of `t` is
/// the root of `t`.
pub proof fn lemma_root_read(t: TreeView)
    requires
        node_canonical(t.root),
        dtb_fits(t),
    ensures
        root_offset(dtb_bytes(t)) == Ok::<int, Fault>(structure_place(t)),
        crate::model::node::model_node(dtb_bytes(t), structure_place(t)) == Ok::<
            crate::model::NodeView,
            Fault,
        >(t.root),
{
    let b = dtb_bytes(t);
    lemma_blob_parts(t);
    lemma_blob_header(t);
    let at = structure_place(t);
    let root_bytes = node_bytes(t.root, Seq::empty());
    let table = node_names(t.root, Seq::empty());
    assert(write_root_spec(t.root).structure == root_bytes + u32_be(FDT_END));
    assert(write_root_spec(t.root).names == table);
    lemma_stands_split(b, at, root_bytes, u32_be(FDT_END));
    lemma_prefix_refl(table);
    assert(strings_hold(b, table));
    lemma_canonical_unfold(t.root);
    lemma_node_shape(b, at, t.root, Seq::empty(), table);
    lemma_node_read(b, at, t.root, Seq::empty(), table);
}

/// A blob that the serialiser has written is written again from the tree
/// that is read from it, byte for byte.
pub proof fn lemma_written_again(t: TreeView, b: Seq<u8>, back: TreeView)
    requires
        tree_canonical(t),
        dtb_fits(t),
        b == dtb_bytes(t),
        model_tree(b) == Ok::<TreeView, Fault>(back),
    ensures
        dtb_bytes(back) == b,
{
    lemma_read_back(t);
}

} // verus!
