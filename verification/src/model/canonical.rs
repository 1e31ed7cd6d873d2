//! Trees that are stored under their names throughout: the trees that come
//! back from their blobs as they are.

use crate::bytes::str_eq;
use crate::memreserve::MemoryReservation;
use crate::model::entries::{distinct_keys, only_at};
use crate::model::{DeviceTree, DeviceTreeNode, NodeView, PropertyView, TreeView};
use vstd::prelude::*;
use vstd::utf8::encode_utf8;

verus! {

/// No character of `name` is the zero character.
pub open spec fn nul_free(name: Seq<char>) -> bool {
    forall|i: int| 0 <= i < name.len() ==> #[trigger] name[i] as u32 != 0
}

/// No byte of `bytes` is zero.
pub open spec fn no_zero_byte(bytes: Seq<u8>) -> bool {
    forall|i: int| 0 <= i < bytes.len() ==> #[trigger] bytes[i] != 0
}

/// Only the zero character is encoded with a zero byte.
pub proof fn lemma_scalar_bytes(s: u32)
    requires
        vstd::utf8::is_scalar(s),
        s != 0,
    ensures
        no_zero_byte(vstd::utf8::encode_scalar(s)),
{
    assert(s <= 0x7F ==> (s & 0x7F) as u8 != 0) by (bit_vector)
        requires
            s != 0,
    ;
    assert(0xC0u8 | ((s >> 6) & 0x1F) as u8 != 0) by (bit_vector);
    assert(0xE0u8 | ((s >> 12) & 0x0F) as u8 != 0) by (bit_vector);
    assert(0xF0u8 | ((s >> 18) & 0x7) as u8 != 0) by (bit_vector);
    assert(0x80u8 | (s & 0x3F) as u8 != 0) by (bit_vector);
    assert(0x80u8 | ((s >> 6) & 0x3F) as u8 != 0) by (bit_vector);
    assert(0x80u8 | ((s >> 12) & 0x3F) as u8 != 0) by (bit_vector);
}

/// A name without the zero character is encoded without a zero byte.
pub proof fn lemma_nul_free_bytes(name: Seq<char>)
    requires
        nul_free(name),
    ensures
        no_zero_byte(encode_utf8(name)),
    decreases name.len(),
{
    if name.len() > 0 {
        let head = vstd::utf8::encode_scalar(name[0] as u32);
        let rest = name.drop_first();
        vstd::utf8::char_is_scalar(name[0]);
        lemma_scalar_bytes(name[0] as u32);
        assert forall|i: int| 0 <= i < rest.len() implies #[trigger] rest[i] as u32 != 0 by {
            assert(rest[i] == name[i + 1]);
        }
        lemma_nul_free_bytes(rest);
        let tail = encode_utf8(rest);
        assert forall|i: int| 0 <= i < (head + tail).len() implies #[trigger] (head + tail)[i]
            != 0 by {
            if i < head.len() {
                assert((head + tail)[i] == head[i]);
            } else {
                assert((head + tail)[i] == tail[i - head.len()]);
            }
        }
    }
}

/// The properties `ps` are stored under their names, which are all
/// different and hold no zero character.
pub open spec fn props_canonical(ps: Seq<(Seq<char>, PropertyView)>) -> bool {
    &&& distinct_keys(ps)
    &&& forall|i: int|
        0 <= i < ps.len() ==> (#[trigger] ps[i]).0 == ps[i].1.name && nul_free(ps[i].1.name)
}

/// In the tree below `n`, every property and every child is stored under
/// its name, the names under which the properties of a node are stored are
/// all different, so are those of its children, and no name holds the
/// zero character.
#[verifier::opaque]
pub open spec fn node_canonical(n: NodeView) -> bool
    decreases n,
{
    &&& nul_free(n.name)
    &&& props_canonical(n.properties)
    &&& distinct_keys(n.children)
    &&& forall|i: int|
        0 <= i < n.children.len() ==> (#[trigger] n.children[i]).0 == n.children[i].1.name
            && node_canonical(n.children[i].1)
}

/// Each of the nodes `cs` is stored under its name and is canonical.
pub open spec fn children_canonical(cs: Seq<(Seq<char>, NodeView)>) -> bool {
    forall|i: int|
        0 <= i < cs.len() ==> (#[trigger] cs[i]).0 == cs[i].1.name && node_canonical(cs[i].1)
}

/// What `node_canonical` says of a node and of its children.
pub proof fn lemma_canonical_unfold(n: NodeView)
    ensures
        node_canonical(n) == (nul_free(n.name) && props_canonical(n.properties) && distinct_keys(
            n.children,
        ) && children_canonical(n.children)),
{
    reveal_with_fuel(node_canonical, 2);
}

/// The rest of canonical nodes are canonical.
pub proof fn lemma_canonical_rest(cs: Seq<(Seq<char>, NodeView)>)
    requires
        children_canonical(cs),
        cs.len() > 0,
    ensures
        children_canonical(cs.skip(1)),
        cs[0].0 == cs[0].1.name,
        node_canonical(cs[0].1),
{
    assert forall|i: int| 0 <= i < cs.skip(1).len() implies (#[trigger] cs.skip(1)[i]).0
        == cs.skip(1)[i].1.name && node_canonical(cs.skip(1)[i].1) by {
        assert(cs.skip(1)[i] == cs[i + 1]);
    }
}

/// None of the reservations `rs` is the pair of zeros.
pub open spec fn no_zero_pair(rs: Seq<(u64, u64)>) -> bool {
    forall|i: int| 0 <= i < rs.len() ==> !((#[trigger] rs[i]).0 == 0 && rs[i].1 == 0)
}

/// The trees that come back from their blobs as they are: every property
/// and every node is stored under its name, no two properties of a node
/// and no two children of a node are stored under the same name, no name
/// holds the zero character, and no memory reservation is the pair of
/// zeros.
pub open spec fn tree_canonical(t: TreeView) -> bool {
    node_canonical(t.root) && no_zero_pair(t.reservations)
}

/// A name with the zero character is encoded with a zero byte.
pub proof fn lemma_nul_bytes(name: Seq<char>)
    requires
        !nul_free(name),
    ensures
        !no_zero_byte(encode_utf8(name)),
    decreases name.len(),
{
    let i = choose|i: int| 0 <= i < name.len() && name[i] as u32 == 0;
    let head = vstd::utf8::encode_scalar(name[0] as u32);
    let rest = name.drop_first();
    let tail = encode_utf8(rest);
    if i == 0 {
        assert(0u32 & 0x7F == 0) by (bit_vector);
        assert(head[0] == 0);
        assert((head + tail)[0] == 0);
    } else {
        assert(rest[i - 1] == name[i]);
        lemma_nul_bytes(rest);
        let j = choose|j: int| 0 <= j < tail.len() && tail[j] == 0;
        assert((head + tail)[head.len() + j] == tail[j]);
    }
}

/// Whether `name` holds the zero character.
pub fn has_nul(name: &str) -> (r: bool)
    ensures
        r == !nul_free(name@),
{
    let bytes = name.as_bytes();
    let mut i: usize = 0;
    while i < bytes.len()
        invariant
            bytes@ == encode_utf8(name@),
            i <= bytes@.len(),
            forall|k: int| 0 <= k < i ==> #[trigger] bytes@[k] != 0,
        decreases bytes@.len() - i,
    {
        if bytes[i] == 0 {
            proof {
                if nul_free(name@) {
                    lemma_nul_free_bytes(name@);
                }
            }
            return true;
        }
        i += 1;
    }
    proof {
        if !nul_free(name@) {
            lemma_nul_bytes(name@);
        }
    }
    false
}

impl DeviceTreeNode {
    /// Whether the properties of this node are stored under their names,
    /// which hold no zero character.
    fn properties_are_canonical(&self) -> (r: bool)
        ensures
            r == props_canonical(self@.properties),
    {
        let n = self.property_count();
        let mut i: usize = 0;
        while i < n
            invariant
                n == self@.properties.len(),
                i <= n,
                forall|k: int|
                    0 <= k < i ==> (#[trigger] self@.properties[k]).0 == self@.properties[k].1.name
                        && nul_free(self@.properties[k].1.name) && only_at(
                        self@.properties,
                        self@.properties[k].0,
                        k,
                    ),
            decreases n - i,
        {
            match self.property_entry(i) {
                Some((key, property)) => {
                    if !str_eq(key, property.name()) || has_nul(property.name()) {
                        return false;
                    }
                },
                None => {},
            }
            i += 1;
        }
        true
    }

    /// Whether the tree below this node is canonical: every property and
    /// every node is stored under its name, and no name holds the zero
    /// character.
    pub fn is_canonical(&self) -> (r: bool)
        ensures
            r == node_canonical(self@),
        decreases self@,
    {
        proof {
            lemma_canonical_unfold(self@);
        }
        if has_nul(self.name()) || !self.properties_are_canonical() {
            return false;
        }
        let n = self.child_count();
        let mut i: usize = 0;
        while i < n
            invariant
                n == self@.children.len(),
                i <= n,
                node_canonical(self@) == (distinct_keys(self@.children) && children_canonical(
                    self@.children,
                )),
                forall|k: int|
                    0 <= k < i ==> (#[trigger] self@.children[k]).0 == self@.children[k].1.name
                        && node_canonical(self@.children[k].1) && only_at(
                        self@.children,
                        self@.children[k].0,
                        k,
                    ),
            decreases n - i,
        {
            match self.child_entry(i) {
                Some((key, child)) => {
                    if !str_eq(key, child.name()) || !child.is_canonical() {
                        return false;
                    }
                },
                None => {},
            }
            i += 1;
        }
        true
    }
}

impl DeviceTree {
    /// Whether the tree is canonical, which is to say that it comes back
    /// from its blob as it is: every property and every node is stored
    /// under its name, no name holds the zero character, and no memory
    /// reservation is the pair of zeros.
    pub fn is_canonical(&self) -> (r: bool)
        ensures
            r == tree_canonical(self@),
    {
        if !self.root().is_canonical() {
            return false;
        }
        let reservations = self.reservations();
        let mut i: usize = 0;
        while i < reservations.len()
            invariant
                reservations@.map_values(|m: MemoryReservation| m@) == self@.reservations,
                i <= reservations@.len(),
                forall|k: int|
                    0 <= k < i ==> !((#[trigger] self@.reservations[k]).0 == 0
                        && self@.reservations[k].1 == 0),
            decreases reservations@.len() - i,
        {
            let reservation = &reservations[i];
            assert(self@.reservations[i as int] == reservation@);
            if reservation.address() == 0 && reservation.size() == 0 {
                return false;
            }
            i += 1;
        }
        true
    }
}

} // verus!
