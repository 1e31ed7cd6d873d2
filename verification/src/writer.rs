//! Serialising a device tree into a flattened blob.
//!
//! A blob is the header, the memory reservations with the pair of zeros
//! that ends them, the structure block and the strings block. The
//! structure block is written in one walk over the tree, each node before
//! its children; the strings block holds each property name once, in the
//! order of first use.

use crate::bytes::{lemma_u32_be_len, push_be_u32, push_be_u64, str_eq, u32_be, u64_be};
use crate::fdt::{FDT_BEGIN_NODE, FDT_END, FDT_END_NODE, FDT_MAGIC, FDT_PROP};
use crate::memreserve::MemoryReservation;
use crate::model::{
    DeviceTree, DeviceTreeNode, DeviceTreeProperty, NodeView, PropertyView, TreeView,
};
use vstd::prelude::*;
use vstd::string::StringExecFns;
use vstd::utf8::encode_utf8;

verus! {

/// The version that is written into the header.
pub const LAST_VERSION: u32 = 17;

/// The oldest version that what is written is compatible with.
pub const LAST_COMP_VERSION: u32 = 16;

/// `n` zero bytes.
pub open spec fn zeros(n: int) -> Seq<u8> {
    Seq::new(n as nat, |i: int| 0u8)
}

/// The number of bytes that pad a length of `len` up to a multiple of four.
pub open spec fn padding(len: int) -> int {
    (4 - len % 4) % 4
}

/// `s` followed by the zero bytes that pad it to a multiple of four.
pub open spec fn padded(s: Seq<u8>) -> Seq<u8> {
    s + zeros(padding(s.len() as int))
}

/// The strings block that holds `names`, each followed by a zero byte.
pub open spec fn name_table_bytes(names: Seq<Seq<char>>) -> Seq<u8>
    decreases names.len(),
{
    if names.len() == 0 {
        Seq::empty()
    } else {
        name_table_bytes(names.drop_last()) + encode_utf8(names.last()) + seq![0u8]
    }
}

/// The offset in the strings block at which `name` stands, if it is among
/// `names`.
pub open spec fn name_offset(names: Seq<Seq<char>>, name: Seq<char>) -> Option<int>
    decreases names.len(),
{
    if names.len() == 0 {
        None
    } else {
        match name_offset(names.drop_last(), name) {
            Some(o) => Some(o),
            None => if names.last() == name {
                Some(name_table_bytes(names.drop_last()).len() as int)
            } else {
                None
            },
        }
    }
}

/// `names` with `name` among them: it is added last where it was missing.
pub open spec fn intern(names: Seq<Seq<char>>, name: Seq<char>) -> Seq<Seq<char>> {
    if name_offset(names, name) is Some {
        names
    } else {
        names.push(name)
    }
}

/// What has been written so far: the structure block, and the names in the
/// strings block.
pub ghost struct Written {
    pub structure: Seq<u8>,
    pub names: Seq<Seq<char>>,
}

/// The encoding of the property `p` in the structure block, where `names`
/// are in the strings block before it is written: token, length of the
/// value, offset of the name, padded value.
pub open spec fn prop_bytes(p: PropertyView, names: Seq<Seq<char>>) -> Seq<u8> {
    u32_be(FDT_PROP) + u32_be(p.value.len() as u32) + u32_be(
        name_offset(intern(names, p.name), p.name).unwrap() as u32,
    ) + padded(p.value)
}

/// What has been written after the property `p`.
pub open spec fn write_prop_spec(p: PropertyView, w: Written) -> Written {
    Written { structure: w.structure + prop_bytes(p, w.names), names: intern(w.names, p.name) }
}

/// What has been written after the properties `props`, in their order.
pub open spec fn write_props_spec(props: Seq<(Seq<char>, PropertyView)>, w: Written) -> Written
    decreases props.len(),
{
    if props.len() == 0 {
        w
    } else {
        write_props_spec(props.skip(1), write_prop_spec(props[0].1, w))
    }
}

/// The opening of a node named `name`: token, and the name with its
/// terminator, padded.
pub open spec fn begin_node_bytes(name: Seq<char>) -> Seq<u8> {
    u32_be(FDT_BEGIN_NODE) + padded(encode_utf8(name) + seq![0u8])
}

/// What has been written after the node `n`: its opening, its properties,
/// its children and its closing token.
pub open spec fn write_node_spec(n: NodeView, w: Written) -> Written
    decreases n,
{
    let opened = Written { structure: w.structure + begin_node_bytes(n.name), names: w.names };
    let inner = write_children_spec(n.children, write_props_spec(n.properties, opened));
    Written { structure: inner.structure + u32_be(FDT_END_NODE), names: inner.names }
}

/// What has been written after the nodes `children`, in their order.
pub open spec fn write_children_spec(children: Seq<(Seq<char>, NodeView)>, w: Written) -> Written
    decreases children,
{
    if children.len() == 0 {
        w
    } else {
        write_children_spec(children.skip(1), write_node_spec(children[0].1, w))
    }
}

/// The structure block and the names of the tree below `root`.
pub open spec fn write_root_spec(root: NodeView) -> Written {
    let w = write_node_spec(root, Written { structure: Seq::empty(), names: Seq::empty() });
    Written { structure: w.structure + u32_be(FDT_END), names: w.names }
}

/// The memory reservation block: each pair of address and size, then the
/// pair of zeros.
pub open spec fn reservation_block(rs: Seq<(u64, u64)>) -> Seq<u8>
    decreases rs.len(),
{
    if rs.len() == 0 {
        u64_be(0) + u64_be(0)
    } else {
        u64_be(rs[0].0) + u64_be(rs[0].1) + reservation_block(rs.skip(1))
    }
}

/// The header of a blob with the given sizes and offsets.
pub open spec fn header_bytes(
    totalsize: u32,
    off_dt_struct: u32,
    off_dt_strings: u32,
    size_dt_strings: u32,
    size_dt_struct: u32,
) -> Seq<u8> {
    u32_be(FDT_MAGIC) + u32_be(totalsize) + u32_be(off_dt_struct) + u32_be(off_dt_strings)
        + u32_be(40) + u32_be(LAST_VERSION) + u32_be(LAST_COMP_VERSION) + u32_be(0) + u32_be(
        size_dt_strings,
    ) + u32_be(size_dt_struct)
}

/// The size of the blob that holds the tree `t`.
pub open spec fn dtb_size(t: TreeView) -> nat {
    40 + reservation_block(t.reservations).len() + write_root_spec(t.root).structure.len()
        + name_table_bytes(write_root_spec(t.root).names).len()
}

/// Whether the tree `t` can be written as a blob: every length and offset
/// of the blob has to fit its 32-bit field.
pub open spec fn dtb_fits(t: TreeView) -> bool {
    dtb_size(t) <= u32::MAX
}

/// The blob that holds the tree `t`.
pub open spec fn dtb_bytes(t: TreeView) -> Seq<u8> {
    let reservations = reservation_block(t.reservations);
    let w = write_root_spec(t.root);
    let strings = name_table_bytes(w.names);
    let off_dt_struct = 40 + reservations.len();
    let off_dt_strings = off_dt_struct + w.structure.len();
    header_bytes(
        (off_dt_strings + strings.len()) as u32,
        off_dt_struct as u32,
        off_dt_strings as u32,
        strings.len() as u32,
        w.structure.len() as u32,
    ) + reservations + w.structure + strings
}

/// The strings block while it is written, with the names it holds and
/// where each of them starts.
pub struct StringTable {
    block: Vec<u8>,
    names: Vec<String>,
    offsets: Vec<u32>,
}

impl View for StringTable {
    type V = Seq<Seq<char>>;

    closed spec fn view(&self) -> Seq<Seq<char>> {
        self.names@.map_values(|s: String| s@)
    }
}

impl StringTable {
    /// The block holds the names, and each offset is that of its name.
    pub closed spec fn wf(&self) -> bool {
        &&& self.block@ == name_table_bytes(self@)
        &&& self.offsets@.len() == self.names@.len()
        &&& forall|i: int|
            0 <= i < self.names@.len() ==> (#[trigger] self.offsets@[i]) == name_table_bytes(
                self@.take(i),
            ).len() as u32
    }

    /// An empty strings block.
    pub fn new() -> (t: Self)
        ensures
            t.wf(),
            t@ == Seq::<Seq<char>>::empty(),
    {
        let t = StringTable { block: Vec::new(), names: Vec::new(), offsets: Vec::new() };
        assert(t@ =~= Seq::<Seq<char>>::empty());
        t
    }

    /// The block, once everything is written.
    pub fn into_block(self) -> (b: Vec<u8>)
        requires
            self.wf(),
        ensures
            b@ == name_table_bytes(self@),
    {
        self.block
    }

    /// The offset of `name` in the block; the name is added where it was
    /// missing.
    pub fn intern(&mut self, name: &str) -> (offset: u32)
        requires
            old(self).wf(),
        ensures
            final(self).wf(),
            final(self)@ == intern(old(self)@, name@),
            offset == name_offset(final(self)@, name@).unwrap() as u32,
    {
        let n = self.names.len();
        let mut i: usize = 0;
        while i < n
            invariant
                self.wf(),
                *self == *old(self),
                n == self.names@.len(),
                i <= n,
                name_offset(self@.take(i as int), name@) is None,
            decreases n - i,
        {
            proof {
                lemma_name_offset_take(self@, i as int, name@);
            }
            if str_eq(self.names[i].as_str(), name) {
                proof {
                    lemma_name_offset_found(self@, i as int, name@);
                }
                return self.offsets[i];
            }
            i += 1;
        }
        proof {
            assert(self@.take(n as int) =~= self@);
        }
        let ghost before = self@;
        let offset = #[verifier::truncate] (self.block.len() as u32);
        self.block.extend_from_slice(name.as_bytes());
        self.block.push(0);
        self.names.push(String::from_str(name));
        self.offsets.push(offset);
        proof {
            assert(self@ =~= before.push(name@));
            assert(self@.drop_last() =~= before);
            assert(self.block@ =~= name_table_bytes(before) + encode_utf8(name@) + seq![0u8]);
            assert forall|k: int| 0 <= k < self.names@.len() implies (
            #[trigger] self.offsets@[k]) == name_table_bytes(self@.take(k)).len() as u32 by {
                if k < n {
                    assert(self@.take(k) =~= before.take(k));
                } else {
                    assert(self@.take(k) =~= before);
                }
            }
        }
        offset
    }
}

/// A name that is not among the first `i` names, and is the next one, has
/// the offset of that one.
pub proof fn lemma_name_offset_take(names: Seq<Seq<char>>, i: int, name: Seq<char>)
    requires
        0 <= i < names.len(),
        name_offset(names.take(i), name) is None,
    ensures
        name_offset(names.take(i + 1), name) == if names[i] == name {
            Some(name_table_bytes(names.take(i)).len() as int)
        } else {
            None::<int>
        },
{
    assert(names.take(i + 1).drop_last() =~= names.take(i));
    assert(names.take(i + 1).last() == names[i]);
}

/// The offset of a name does not change when more names follow.
pub proof fn lemma_name_offset_stable(names: Seq<Seq<char>>, i: int, name: Seq<char>)
    requires
        0 <= i <= names.len(),
        name_offset(names.take(i), name) is Some,
    ensures
        name_offset(names, name) == name_offset(names.take(i), name),
    decreases names.len() - i,
{
    if i < names.len() {
        assert(names.take(i + 1).drop_last() =~= names.take(i));
        lemma_name_offset_stable(names, i + 1, name);
    } else {
        assert(names.take(i) =~= names);
    }
}

/// A name that is not among the first `i` names, and is the next one, has
/// that one's offset among all names.
pub proof fn lemma_name_offset_found(names: Seq<Seq<char>>, i: int, name: Seq<char>)
    requires
        0 <= i < names.len(),
        name_offset(names.take(i), name) is None,
        names[i] == name,
    ensures
        name_offset(names, name) == Some(name_table_bytes(names.take(i)).len() as int),
        intern(names, name) == names,
{
    lemma_name_offset_take(names, i, name);
    lemma_name_offset_stable(names, i + 1, name);
}

/// Pads `vec` with zero bytes to a multiple of four.
pub fn align(vec: &mut Vec<u8>)
    ensures
        final(vec)@ == old(vec)@ + zeros(padding(old(vec)@.len() as int)),
        final(vec)@.len() % 4 == 0,
{
    let ghost start = vec@;
    while vec.len() % 4 != 0
        invariant
            vec@.len() >= start.len(),
            vec@.len() - start.len() <= padding(start.len() as int),
            (vec@.len() - start.len() < padding(start.len() as int)) == (vec@.len() % 4 != 0),
            vec@ == start + zeros(vec@.len() - start.len()),
        decreases padding(start.len() as int) - (vec@.len() - start.len()),
    {
        vec.push(0);
        assert(vec@ =~= start + zeros(vec@.len() - start.len()));
    }
    assert(vec@ =~= start + zeros(padding(start.len() as int)));
}

/// Writes the memory reservation block.
pub fn write_memory_reservations(reservations: &[MemoryReservation]) -> (r: Vec<u8>)
    ensures
        r@ == reservation_block(reservations@.map_values(|m: MemoryReservation| m@)),
{
    let ghost all = reservations@.map_values(|m: MemoryReservation| m@);
    let mut out: Vec<u8> = Vec::new();
    let mut i: usize = 0;
    assert(all.skip(0) =~= all);
    assert(out@ + reservation_block(all) =~= reservation_block(all));
    while i < reservations.len()
        invariant
            i <= reservations@.len(),
            all == reservations@.map_values(|m: MemoryReservation| m@),
            out@ + reservation_block(all.skip(i as int)) == reservation_block(all),
        decreases reservations@.len() - i,
    {
        let ghost before = out@;
        let reservation = &reservations[i];
        push_be_u64(&mut out, reservation.address());
        push_be_u64(&mut out, reservation.size());
        proof {
            let rest = all.skip(i as int);
            assert(rest[0] == reservation@);
            assert(rest.skip(1) =~= all.skip(i + 1));
            assert(out@ + reservation_block(all.skip(i + 1)) =~= before + reservation_block(rest));
        }
        i += 1;
    }
    let ghost before = out@;
    push_be_u64(&mut out, 0);
    push_be_u64(&mut out, 0);
    assert(out@ =~= before + reservation_block(all.skip(i as int)));
    out
}

/// Writes one property, and its name where the strings block does not
/// hold it yet.
pub fn write_prop(struct_block: &mut Vec<u8>, strings: &mut StringTable, prop: &DeviceTreeProperty)
    requires
        old(strings).wf(),
        old(struct_block)@.len() % 4 == 0,
    ensures
        final(strings).wf(),
        final(struct_block)@.len() % 4 == 0,
        (Written { structure: final(struct_block)@, names: final(strings)@ }) == write_prop_spec(
            prop@,
            Written { structure: old(struct_block)@, names: old(strings)@ },
        ),
{
    let name_offset = strings.intern(prop.name());
    let value = prop.value();
    let ghost s0 = struct_block@;
    push_be_u32(struct_block, FDT_PROP);
    push_be_u32(struct_block, #[verifier::truncate] (value.len() as u32));
    push_be_u32(struct_block, name_offset);
    let ghost s3 = struct_block@;
    struct_block.extend_from_slice(value);
    let ghost s4 = struct_block@;
    align(struct_block);
    proof {
        let head = u32_be(FDT_PROP) + u32_be(value@.len() as u32) + u32_be(name_offset);
        lemma_u32_be_len(FDT_PROP);
        lemma_u32_be_len(value@.len() as u32);
        lemma_u32_be_len(name_offset);
        assert(head.len() == 12);
        assert(s3 =~= s0 + head);
        assert(s4.len() == s0.len() + 12 + value@.len());
        assert(padding(s4.len() as int) == padding(value@.len() as int));
        assert(struct_block@ == s4 + zeros(padding(value@.len() as int)));
        assert(struct_block@ =~= s0 + (head + padded(value@)));
        assert(prop_bytes(prop@, old(strings)@) == head + padded(value@));
    }
}

/// Writes a node with all below it.
pub fn write_node(struct_block: &mut Vec<u8>, strings: &mut StringTable, node: &DeviceTreeNode)
    requires
        old(strings).wf(),
        old(struct_block)@.len() % 4 == 0,
    ensures
        final(strings).wf(),
        final(struct_block)@.len() % 4 == 0,
        (Written { structure: final(struct_block)@, names: final(strings)@ }) == write_node_spec(
            node@,
            Written { structure: old(struct_block)@, names: old(strings)@ },
        ),
    decreases node@,
{
    let ghost start = Written { structure: struct_block@, names: strings@ };
    push_be_u32(struct_block, FDT_BEGIN_NODE);
    let ghost tagged = struct_block@;
    struct_block.extend_from_slice(node.name().as_bytes());
    struct_block.push(0);
    align(struct_block);
    proof {
        let name = encode_utf8(node@.name) + seq![0u8];
        lemma_u32_be_len(FDT_BEGIN_NODE);
        assert(padding((tagged + name).len() as int) == padding(name.len() as int));
        assert(struct_block@ =~= start.structure + begin_node_bytes(node@.name));
    }
    let ghost opened = Written { structure: struct_block@, names: strings@ };

    let props = node.property_count();
    let mut i: usize = 0;
    assert(node@.properties.skip(0) =~= node@.properties);
    while i < props
        invariant
            props == node@.properties.len(),
            i <= props,
            strings.wf(),
            struct_block@.len() % 4 == 0,
            write_props_spec(
                node@.properties.skip(i as int),
                Written { structure: struct_block@, names: strings@ },
            ) == write_props_spec(node@.properties, opened),
        decreases props - i,
    {
        match node.property_at(i) {
            Some(prop) => {
                proof {
                    let rest = node@.properties.skip(i as int);
                    assert(rest[0] == node@.properties[i as int]);
                    assert(rest.skip(1) =~= node@.properties.skip(i + 1));
                }
                write_prop(struct_block, strings, prop);
            },
            None => {},
        }
        i += 1;
    }
    let ghost with_props = Written { structure: struct_block@, names: strings@ };

    let children = node.child_count();
    let mut j: usize = 0;
    assert(node@.children.skip(0) =~= node@.children);
    while j < children
        invariant
            children == node@.children.len(),
            j <= children,
            strings.wf(),
            struct_block@.len() % 4 == 0,
            write_children_spec(
                node@.children.skip(j as int),
                Written { structure: struct_block@, names: strings@ },
            ) == write_children_spec(node@.children, with_props),
        decreases children - j,
    {
        match node.child_at(j) {
            Some(child) => {
                proof {
                    let rest = node@.children.skip(j as int);
                    assert(rest[0] == node@.children[j as int]);
                    assert(rest.skip(1) =~= node@.children.skip(j + 1));
                }
                write_node(struct_block, strings, child);
            },
            None => {},
        }
        j += 1;
    }
    push_be_u32(struct_block, FDT_END_NODE);
    proof {
        lemma_u32_be_len(FDT_END_NODE);
    }
}

/// Writes the structure block and the strings block of the tree below
/// `root_node`.
pub fn write_root(root_node: &DeviceTreeNode) -> (r: (Vec<u8>, Vec<u8>))
    ensures
        r.0@ == write_root_spec(root_node@).structure,
        r.1@ == name_table_bytes(write_root_spec(root_node@).names),
{
    let mut struct_block: Vec<u8> = Vec::new();
    let mut strings = StringTable::new();
    write_node(&mut struct_block, &mut strings, root_node);
    push_be_u32(&mut struct_block, FDT_END);
    (struct_block, strings.into_block())
}

/// Serialises `tree` into a blob, or into nothing where a length or an
/// offset of the blob would not fit its 32-bit field.
pub fn try_to_bytes(tree: &DeviceTree) -> (r: Option<Vec<u8>>)
    ensures
        match r {
            Some(dtb) => dtb_fits(tree@) && dtb@ == dtb_bytes(tree@),
            None => !dtb_fits(tree@),
        },
{
    let memory_reservations = write_memory_reservations(tree.reservations().as_slice());
    let (struct_block, strings_block) = write_root(tree.root());
    let limit: usize = 0xffff_ffff;
    if memory_reservations.len() > limit || struct_block.len() > limit || strings_block.len()
        > limit {
        return None;
    }
    let off_mem_rsvmap: u64 = 40;
    let off_dt_struct: u64 = off_mem_rsvmap + memory_reservations.len() as u64;
    let off_dt_strings: u64 = off_dt_struct + struct_block.len() as u64;
    let totalsize: u64 = off_dt_strings + strings_block.len() as u64;
    if totalsize > 0xffff_ffff {
        return None;
    }
    let mut dtb: Vec<u8> = Vec::new();
    push_be_u32(&mut dtb, FDT_MAGIC);
    push_be_u32(&mut dtb, totalsize as u32);
    push_be_u32(&mut dtb, off_dt_struct as u32);
    push_be_u32(&mut dtb, off_dt_strings as u32);
    push_be_u32(&mut dtb, off_mem_rsvmap as u32);
    push_be_u32(&mut dtb, LAST_VERSION);
    push_be_u32(&mut dtb, LAST_COMP_VERSION);
    push_be_u32(&mut dtb, 0);
    push_be_u32(&mut dtb, strings_block.len() as u32);
    push_be_u32(&mut dtb, struct_block.len() as u32);
    dtb.extend_from_slice(memory_reservations.as_slice());
    dtb.extend_from_slice(struct_block.as_slice());
    dtb.extend_from_slice(strings_block.as_slice());
    assert(dtb@ =~= dtb_bytes(tree@));
    Some(dtb)
}

/// Serialises `tree` into a blob.
pub fn to_bytes(tree: &DeviceTree) -> (r: Vec<u8>)
    requires
        dtb_fits(tree@),
    ensures
        r@ == dtb_bytes(tree@),
{
    match try_to_bytes(tree) {
        Some(dtb) => dtb,
        None => Vec::new(),
    }
}

} // verus!
