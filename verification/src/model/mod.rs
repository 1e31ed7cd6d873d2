//! A read-write, in-memory representation of a device tree.
//!
//! This module provides the [`DeviceTree`], [`DeviceTreeNode`], and
//! [`DeviceTreeProperty`] structs, which can be used to create or modify a
//! device tree in memory. The [`DeviceTree`] can then be serialized to a
//! flattened device tree blob.

pub mod canonical;
pub mod entries;
pub mod node;
pub mod overlay;
pub mod property;

pub use node::{DeviceTreeNode, DeviceTreeNodeBuilder, NodeView};
pub use property::{DeviceTreeProperty, PropertyView};

use crate::bytes::{lemma_decode_of_bytes, str_from_utf8};
use crate::error::{Fault, FdtError};
use crate::fdt::format::source_text;
use crate::fdt::{hdr_off_mem_rsvmap, reservations_from, root_offset, slice_subrange, Fdt};
use crate::memreserve::MemoryReservation;
use crate::path::{is_absolute, next_segment, segments_from, SEPARATOR};
use crate::writer;
use crate::writer::{dtb_bytes, dtb_fits};
use entries::entry_index;
use node::model_node;
use vstd::prelude::*;
use vstd::utf8::{decode_utf8, encode_utf8, valid_utf8};

verus! {

/// What a device tree holds: the tree below its root, and its memory
/// reservations as pairs of address and size.
pub ghost struct TreeView {
    pub root: NodeView,
    pub reservations: Seq<(u64, u64)>,
}

/// The position among `children` of the child that the bytes `name` name:
/// the first whose key they encode.
pub open spec fn segment_index(children: Seq<(Seq<char>, NodeView)>, name: Seq<u8>) -> Option<int> {
    if valid_utf8(name) {
        entry_index(children, decode_utf8(name))
    } else {
        None
    }
}

/// The node reached from `n` by going down along `names`; nothing where a
/// name has no child.
pub open spec fn reach(n: NodeView, names: Seq<Seq<u8>>) -> Option<NodeView>
    decreases names.len(),
{
    if names.len() == 0 {
        Some(n)
    } else {
        match segment_index(n.children, names[0]) {
            None => None,
            Some(i) => reach(n.children[i].1, names.skip(1)),
        }
    }
}

/// `n` with the node reached along `names` replaced by `new`; `n` itself
/// where no node is reached.
pub open spec fn graft(n: NodeView, names: Seq<Seq<u8>>, new: NodeView) -> NodeView
    decreases names.len(),
{
    if names.len() == 0 {
        new
    } else {
        match segment_index(n.children, names[0]) {
            None => n,
            Some(i) => NodeView {
                children: n.children.update(
                    i,
                    (n.children[i].0, graft(n.children[i].1, names.skip(1), new)),
                ),
                ..n
            },
        }
    }
}

/// The node of `root` that the path `path` names.
pub open spec fn reach_path(root: NodeView, path: Seq<u8>) -> Option<NodeView> {
    if is_absolute(path) {
        reach(root, segments_from(path, 0))
    } else {
        None
    }
}

/// The tree that the blob `b` holds: its root with all below it, and its
/// memory reservations; the first error met where there is one.
pub open spec fn model_tree(b: Seq<u8>) -> Result<TreeView, Fault> {
    match root_offset(b) {
        Err(f) => Err(f),
        Ok(root) => match model_node(b, root) {
            Err(f) => Err(f),
            Ok(n) => Ok(
                TreeView {
                    root: n,
                    reservations: reservations_from(b, hdr_off_mem_rsvmap(b) as int),
                },
            ),
        },
    }
}

/// A mutable, in-memory representation of a device tree.
///
/// This struct provides a high-level API for creating and modifying a device
/// tree. It can be created from scratch or by parsing an existing FDT blob.
#[derive(Debug, PartialEq, Eq)]
pub struct DeviceTree {
    root: DeviceTreeNode,
    /// The memory reservations for this device tree.
    pub memory_reservations: Vec<MemoryReservation>,
}

impl View for DeviceTree {
    type V = TreeView;

    closed spec fn view(&self) -> TreeView {
        TreeView {
            root: self.root@,
            reservations: self.memory_reservations@.map_values(|m: MemoryReservation| m@),
        }
    }
}

impl Clone for DeviceTree {
    fn clone(&self) -> (r: Self)
        ensures
            r@ == self@,
    {
        let r = DeviceTree {
            root: self.root.clone(),
            memory_reservations: self.memory_reservations.clone(),
        };
        assert(r.memory_reservations@ =~= self.memory_reservations@);
        r
    }
}

impl DeviceTree {
    /// Creates a new `DeviceTree` with the given root node.
    #[must_use]
    pub fn new(root: DeviceTreeNode) -> (r: Self)
        ensures
            r@ == (TreeView { root: root@, reservations: Seq::empty() }),
    {
        let r = Self { root, memory_reservations: Vec::new() };
        assert(r.memory_reservations@.map_values(|m: MemoryReservation| m@) =~= Seq::empty());
        r
    }

    /// Creates a new `DeviceTree` from a `Fdt`: a copy of every node,
    /// property and memory reservation of the blob.
    ///
    /// # Errors
    ///
    /// Returns the first error met while reading the blob.
    pub fn from_fdt(fdt: &Fdt<'_>) -> (r: Result<Self, FdtError>)
        ensures
            match r {
                Ok(t) => model_tree(fdt@) == Ok::<TreeView, Fault>(t@),
                Err(e) => model_tree(fdt@) == Err::<TreeView, Fault>(e@),
            },
    {
        let root_node = match fdt.root() {
            Err(e) => {
                return Err(e);
            },
            Ok(n) => n,
        };
        let root = match DeviceTreeNode::try_from(root_node) {
            Err(e) => {
                return Err(e);
            },
            Ok(n) => n,
        };
        let ghost all = reservations_from(fdt@, hdr_off_mem_rsvmap(fdt@) as int);
        let mut memory_reservations: Vec<MemoryReservation> = Vec::new();
        let mut reservations = fdt.memory_reservations();
        assert(all.skip(0) =~= all);
        assert(memory_reservations@.map_values(|m: MemoryReservation| m@) =~= all.take(0));
        loop
            invariant
                memory_reservations@.len() <= all.len(),
                reservations.remaining() == all.skip(memory_reservations@.len() as int),
                memory_reservations@.map_values(|m: MemoryReservation| m@) == all.take(
                    memory_reservations@.len() as int,
                ),
            ensures
                memory_reservations@.map_values(|m: MemoryReservation| m@) == all,
            decreases all.len() - memory_reservations@.len(),
        {
            let ghost n = memory_reservations@.len() as int;
            match reservations.next() {
                None => {
                    assert(all.take(n) =~= all);
                    break ;
                },
                Some(reservation) => {
                    memory_reservations.push(reservation);
                    proof {
                        assert(all.skip(n)[0] == all[n]);
                        assert(all.skip(n).skip(1) =~= all.skip(n + 1));
                        assert(memory_reservations@.map_values(|m: MemoryReservation| m@)
                            =~= all.take(n).push(all[n]));
                        assert(all.take(n).push(all[n]) =~= all.take(n + 1));
                    }
                },
            }
        }
        Ok(DeviceTree { root, memory_reservations })
    }

    /// Serializes the `DeviceTree` to a flattened device tree blob.
    ///
    /// Every length and offset of the blob has to fit its 32-bit field:
    /// [`DeviceTree::try_to_dtb`] tests that.
    #[must_use]
    pub fn to_dtb(&self) -> (r: Vec<u8>)
        requires
            dtb_fits(self@),
        ensures
            r@ == dtb_bytes(self@),
    {
        writer::to_bytes(self)
    }

    /// Serializes the `DeviceTree` to a flattened device tree blob, or to
    /// nothing where a length or an offset of the blob would not fit its
    /// 32-bit field.
    #[must_use]
    pub fn try_to_dtb(&self) -> (r: Option<Vec<u8>>)
        ensures
            match r {
                Some(dtb) => dtb_fits(self@) && dtb@ == dtb_bytes(self@),
                None => !dtb_fits(self@),
            },
    {
        writer::try_to_bytes(self)
    }

    /// Renders the tree as device tree source text: the text of the blob
    /// that it serializes to.
    ///
    /// # Errors
    ///
    /// Returns the error met while reading that blob, if any.
    pub fn to_string(&self) -> (r: Result<String, FdtError>)
        requires
            dtb_fits(self@),
        ensures
            match r {
                Ok(s) => source_text(dtb_bytes(self@)) == Ok::<Seq<char>, Fault>(s@),
                Err(e) => source_text(dtb_bytes(self@)) == Err::<Seq<char>, Fault>(e@),
            },
    {
        let dtb = self.to_dtb();
        match Fdt::new(dtb.as_slice()) {
            Err(e) => Err(e),
            Ok(fdt) => fdt.to_string(),
        }
    }

    /// Returns a reference to the root node of the device tree.
    #[must_use]
    pub fn root(&self) -> (r: &DeviceTreeNode)
        ensures
            r@ == self@.root,
    {
        &self.root
    }

    /// Returns a mutable reference to the root node of the device tree.
    pub fn root_mut(&mut self) -> (r: &mut DeviceTreeNode)
        ensures
            r@ == old(self)@.root,
            final(self)@ == (TreeView { root: final(r)@, ..old(self)@ }),
    {
        &mut self.root
    }

    /// Returns the memory reservations of the device tree.
    pub fn reservations(&self) -> (r: &Vec<MemoryReservation>)
        ensures
            r@.map_values(|m: MemoryReservation| m@) == self@.reservations,
    {
        &self.memory_reservations
    }

    /// Finds a node by its path and returns a mutable reference to it.
    ///
    /// The path has to start with `/`; `/` alone names the root. Names are
    /// separated by `/`, and empty names are passed over.
    ///
    /// # Performance
    ///
    /// This method traverses the device tree, but since child lookup is a
    /// constant-time operation, performance is linear in the number of path
    /// segments.
    pub fn find_node_mut(&mut self, path: &str) -> (r: Option<&mut DeviceTreeNode>)
        ensures
            match r {
                Some(n) => reach_path(old(self)@.root, encode_utf8(path@)) == Some(n@) && final(self)@ == (TreeView {
                    root: graft(
                        old(self)@.root,
                        segments_from(encode_utf8(path@), 0),
                        final(n)@,
                    ),
                    ..old(self)@
                }),
                None => reach_path(old(self)@.root, encode_utf8(path@)) is None && final(self)@
                    == old(self)@,
            },
    {
        let bytes = path.as_bytes();
        if bytes.len() == 0 || bytes[0] != SEPARATOR {
            return None;
        }
        descend_mut(&mut self.root, bytes, 0)
    }
}

/// Goes down from `node` along the names of `path` from `at` on.
pub(crate) fn descend_mut<'a>(node: &'a mut DeviceTreeNode, path: &[u8], at: usize) -> (r: Option<
    &'a mut DeviceTreeNode,
>)
    requires
        at <= path@.len(),
    ensures
        match r {
            Some(n) => reach(old(node)@, segments_from(path@, at as int)) == Some(n@) && final(node)@ == graft(old(node)@, segments_from(path@, at as int), final(n)@),
            None => reach(old(node)@, segments_from(path@, at as int)) is None && final(node)@
                == old(node)@,
        },
    decreases path@.len() - at,
{
    let ghost names = segments_from(path@, at as int);
    match next_segment(path, at) {
        None => {
            assert(names.len() == 0);
            Some(node)
        },
        Some((start, end)) => {
            let segment = slice_subrange(path, start, end);
            let ghost rest = segments_from(path@, end as int);
            proof {
                assert(names == seq![segment@] + rest);
                assert(names.skip(1) =~= rest);
                assert(names[0] == segment@);
            }
            match str_from_utf8(segment) {
                None => None,
                Some(name) => {
                    proof {
                        lemma_decode_of_bytes(name);
                        entries::lemma_entry_index(node@.children, name@);
                        assert(segment_index(node@.children, segment@) == entry_index(
                            node@.children,
                            name@,
                        ));
                        let cs = node@.children;
                        if entry_index(cs, name@) is Some {
                            let i = entry_index(cs, name@).unwrap();
                            assert(cs.update(i, (cs[i].0, cs[i].1)) =~= cs);
                        }
                    }
                    match node.child_mut(name) {
                        None => None,
                        Some(child) => descend_mut(child, path, end),
                    }
                },
            }
        },
    }
}

} // verus!
