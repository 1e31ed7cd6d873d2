//! What the serialiser writes, part by part.

use super::embed::lemma_padded_len;
use super::strings::{is_prefix, lemma_intern_extends, lemma_prefix_refl, lemma_prefix_trans};
use crate::bytes::{lemma_u32_be_len, u32_be};
use crate::fdt::{FDT_BEGIN_NODE, FDT_END_NODE, FDT_PROP};
use crate::model::{NodeView, PropertyView};
use crate::writer::{
    begin_node_bytes, intern, name_offset, padded, prop_bytes, write_children_spec,
    write_node_spec, write_prop_spec, write_props_spec, Written,
};
use vstd::prelude::*;

verus! {

/// Nothing written yet, with `names` in the strings block.
pub open spec fn fresh(names: Seq<Seq<char>>) -> Written {
    Written { structure: Seq::empty(), names }
}

/// The bytes of the properties `ps`, written with `names` in the strings
/// block.
pub open spec fn props_bytes(ps: Seq<(Seq<char>, PropertyView)>, names: Seq<Seq<char>>) -> Seq<u8> {
    write_props_spec(ps, fresh(names)).structure
}

/// The names in the strings block after the properties `ps`.
pub open spec fn props_names(ps: Seq<(Seq<char>, PropertyView)>, names: Seq<Seq<char>>) -> Seq<
    Seq<char>,
> {
    write_props_spec(ps, fresh(names)).names
}

/// The bytes of the node `n`, written with `names` in the strings block.
pub open spec fn node_bytes(n: NodeView, names: Seq<Seq<char>>) -> Seq<u8> {
    write_node_spec(n, fresh(names)).structure
}

/// The names in the strings block after the node `n`.
pub open spec fn node_names(n: NodeView, names: Seq<Seq<char>>) -> Seq<Seq<char>> {
    write_node_spec(n, fresh(names)).names
}

/// The bytes of the nodes `cs`, written with `names` in the strings block.
pub open spec fn children_bytes(cs: Seq<(Seq<char>, NodeView)>, names: Seq<Seq<char>>) -> Seq<u8> {
    write_children_spec(cs, fresh(names)).structure
}

/// The names in the strings block after the nodes `cs`.
pub open spec fn children_names(cs: Seq<(Seq<char>, NodeView)>, names: Seq<Seq<char>>) -> Seq<
    Seq<char>,
> {
    write_children_spec(cs, fresh(names)).names
}

/// Properties are written after what was written before, whatever that
/// was.
pub proof fn lemma_props_frame(ps: Seq<(Seq<char>, PropertyView)>, w: Written)
    ensures
        write_props_spec(ps, w) == (Written {
            structure: w.structure + props_bytes(ps, w.names),
            names: props_names(ps, w.names),
        }),
    decreases ps.len(),
{
    if ps.len() == 0 {
        assert(w.structure + Seq::<u8>::empty() =~= w.structure);
    } else {
        let p = ps[0].1;
        let pb = prop_bytes(p, w.names);
        let names1 = intern(w.names, p.name);
        let w1 = Written { structure: w.structure + pb, names: names1 };
        let f1 = Written { structure: Seq::<u8>::empty() + pb, names: names1 };
        assert(write_prop_spec(p, w) == w1);
        assert(write_prop_spec(p, fresh(w.names)) == f1);
        lemma_props_frame(ps.skip(1), w1);
        lemma_props_frame(ps.skip(1), f1);
        let rest = props_bytes(ps.skip(1), names1);
        assert(w.structure + pb + rest =~= w.structure + (Seq::<u8>::empty() + pb + rest));
    }
}

/// A node is written after what was written before, whatever that was.
pub proof fn lemma_node_frame(n: NodeView, w: Written)
    ensures
        write_node_spec(n, w) == (Written {
            structure: w.structure + node_bytes(n, w.names),
            names: node_names(n, w.names),
        }),
    decreases n, 1nat,
{
    let begin = begin_node_bytes(n.name);
    let opened = Written { structure: w.structure + begin, names: w.names };
    let opened0 = Written { structure: Seq::<u8>::empty() + begin, names: w.names };
    lemma_props_frame(n.properties, opened);
    lemma_props_frame(n.properties, opened0);
    let pb = props_bytes(n.properties, w.names);
    let pn = props_names(n.properties, w.names);
    let with_props = Written { structure: w.structure + begin + pb, names: pn };
    let with_props0 = Written { structure: Seq::<u8>::empty() + begin + pb, names: pn };
    lemma_children_frame(n.children, with_props);
    lemma_children_frame(n.children, with_props0);
    let cb = children_bytes(n.children, pn);
    let end = u32_be(FDT_END_NODE);
    assert(w.structure + begin + pb + cb + end =~= w.structure + (Seq::<u8>::empty() + begin + pb
        + cb + end));
}

/// Nodes are written after what was written before, whatever that was.
pub proof fn lemma_children_frame(cs: Seq<(Seq<char>, NodeView)>, w: Written)
    ensures
        write_children_spec(cs, w) == (Written {
            structure: w.structure + children_bytes(cs, w.names),
            names: children_names(cs, w.names),
        }),
    decreases cs, 0nat,
{
    if cs.len() == 0 {
        assert(w.structure + Seq::<u8>::empty() =~= w.structure);
    } else {
        let c = cs[0].1;
        lemma_node_frame(c, w);
        lemma_node_frame(c, fresh(w.names));
        let nb = node_bytes(c, w.names);
        let nn = node_names(c, w.names);
        let w1 = Written { structure: w.structure + nb, names: nn };
        let f1 = Written { structure: Seq::<u8>::empty() + nb, names: nn };
        lemma_children_frame(cs.skip(1), w1);
        lemma_children_frame(cs.skip(1), f1);
        let rest = children_bytes(cs.skip(1), nn);
        assert(w.structure + nb + rest =~= w.structure + (Seq::<u8>::empty() + nb + rest));
    }
}

/// The bytes of properties: those of the first, then those of the rest.
pub proof fn lemma_props_step(ps: Seq<(Seq<char>, PropertyView)>, names: Seq<Seq<char>>)
    requires
        ps.len() > 0,
    ensures
        props_bytes(ps, names) == prop_bytes(ps[0].1, names) + props_bytes(
            ps.skip(1),
            intern(names, ps[0].1.name),
        ),
        props_names(ps, names) == props_names(ps.skip(1), intern(names, ps[0].1.name)),
{
    let p = ps[0].1;
    let f1 = write_prop_spec(p, fresh(names));
    lemma_props_frame(ps.skip(1), f1);
    assert(Seq::<u8>::empty() + prop_bytes(p, names) =~= prop_bytes(p, names));
}

/// The bytes of nodes: those of the first, then those of the rest.
pub proof fn lemma_children_step(cs: Seq<(Seq<char>, NodeView)>, names: Seq<Seq<char>>)
    requires
        cs.len() > 0,
    ensures
        children_bytes(cs, names) == node_bytes(cs[0].1, names) + children_bytes(
            cs.skip(1),
            node_names(cs[0].1, names),
        ),
        children_names(cs, names) == children_names(cs.skip(1), node_names(cs[0].1, names)),
{
    let f1 = write_node_spec(cs[0].1, fresh(names));
    lemma_children_frame(cs.skip(1), f1);
}

/// The bytes of a node: its opening, its properties, its children and its
/// closing token.
pub proof fn lemma_node_parts(n: NodeView, names: Seq<Seq<char>>)
    ensures
        node_bytes(n, names) == begin_node_bytes(n.name) + props_bytes(n.properties, names)
            + children_bytes(n.children, props_names(n.properties, names)) + u32_be(FDT_END_NODE),
        node_names(n, names) == children_names(n.children, props_names(n.properties, names)),
{
    let begin = begin_node_bytes(n.name);
    let opened0 = Written { structure: Seq::<u8>::empty() + begin, names };
    lemma_props_frame(n.properties, opened0);
    let pb = props_bytes(n.properties, names);
    let pn = props_names(n.properties, names);
    let with_props0 = Written { structure: Seq::<u8>::empty() + begin + pb, names: pn };
    lemma_children_frame(n.children, with_props0);
    let cb = children_bytes(n.children, pn);
    assert(Seq::<u8>::empty() + begin + pb + cb + u32_be(FDT_END_NODE) =~= begin + pb + cb
        + u32_be(FDT_END_NODE));
}

/// The names in the strings block stay while properties are written.
pub proof fn lemma_props_names_extend(ps: Seq<(Seq<char>, PropertyView)>, names: Seq<Seq<char>>)
    ensures
        is_prefix(names, props_names(ps, names)),
    decreases ps.len(),
{
    if ps.len() == 0 {
        lemma_prefix_refl(names);
    } else {
        lemma_props_step(ps, names);
        let names1 = intern(names, ps[0].1.name);
        lemma_intern_extends(names, ps[0].1.name);
        lemma_props_names_extend(ps.skip(1), names1);
        lemma_prefix_trans(names, names1, props_names(ps.skip(1), names1));
    }
}

/// The names in the strings block stay while a node is written.
pub proof fn lemma_node_names_extend(n: NodeView, names: Seq<Seq<char>>)
    ensures
        is_prefix(names, node_names(n, names)),
    decreases n, 1nat,
{
    lemma_node_parts(n, names);
    let pn = props_names(n.properties, names);
    lemma_props_names_extend(n.properties, names);
    lemma_children_names_extend(n.children, pn);
    lemma_prefix_trans(names, pn, children_names(n.children, pn));
}

/// The names in the strings block stay while nodes are written.
pub proof fn lemma_children_names_extend(cs: Seq<(Seq<char>, NodeView)>, names: Seq<Seq<char>>)
    ensures
        is_prefix(names, children_names(cs, names)),
    decreases cs, 0nat,
{
    if cs.len() == 0 {
        lemma_prefix_refl(names);
    } else {
        lemma_children_step(cs, names);
        let nn = node_names(cs[0].1, names);
        lemma_node_names_extend(cs[0].1, names);
        lemma_children_names_extend(cs.skip(1), nn);
        lemma_prefix_trans(names, nn, children_names(cs.skip(1), nn));
    }
}

/// A property takes twelve bytes and its padded value.
pub proof fn lemma_prop_bytes_len(p: PropertyView, names: Seq<Seq<char>>)
    ensures
        prop_bytes(p, names).len() == 12 + padded(p.value).len(),
        prop_bytes(p, names).len() % 4 == 0,
{
    lemma_u32_be_len(FDT_PROP);
    lemma_u32_be_len(p.value.len() as u32);
    lemma_u32_be_len(name_offset(intern(names, p.name), p.name).unwrap() as u32);
    lemma_padded_len(p.value);
}

/// Properties take a multiple of four bytes.
pub proof fn lemma_props_bytes_aligned(ps: Seq<(Seq<char>, PropertyView)>, names: Seq<Seq<char>>)
    ensures
        props_bytes(ps, names).len() % 4 == 0,
    decreases ps.len(),
{
    if ps.len() > 0 {
        lemma_props_step(ps, names);
        lemma_prop_bytes_len(ps[0].1, names);
        lemma_props_bytes_aligned(ps.skip(1), intern(names, ps[0].1.name));
    }
}

/// A node takes a multiple of four bytes, twelve at least.
pub proof fn lemma_node_bytes_aligned(n: NodeView, names: Seq<Seq<char>>)
    ensures
        node_bytes(n, names).len() % 4 == 0,
        node_bytes(n, names).len() >= 12,
    decreases n, 1nat,
{
    lemma_node_parts(n, names);
    lemma_u32_be_len(FDT_BEGIN_NODE);
    lemma_u32_be_len(FDT_END_NODE);
    lemma_padded_len(vstd::utf8::encode_utf8(n.name) + seq![0u8]);
    lemma_props_bytes_aligned(n.properties, names);
    lemma_children_bytes_aligned(n.children, props_names(n.properties, names));
}

/// Nodes take a multiple of four bytes.
pub proof fn lemma_children_bytes_aligned(cs: Seq<(Seq<char>, NodeView)>, names: Seq<Seq<char>>)
    ensures
        children_bytes(cs, names).len() % 4 == 0,
    decreases cs, 0nat,
{
    if cs.len() > 0 {
        lemma_children_step(cs, names);
        lemma_node_bytes_aligned(cs[0].1, names);
        lemma_children_bytes_aligned(cs.skip(1), node_names(cs[0].1, names));
    }
}

} // verus!
