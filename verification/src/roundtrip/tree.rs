//! Reading finds the tree that the serialiser has written.

use super::embed::{lemma_stands_split, lemma_token_stands, stands_at};
use super::layout::{
    children_bytes, children_names, lemma_children_names_extend, lemma_children_step,
    lemma_node_bytes_aligned, node_bytes, node_names, props_names,
};
use super::reading::{
    children_place, insert_all, lemma_children_head, lemma_insert_all_distinct, lemma_node_shape,
    lemma_node_split,
};
use super::strings::{is_prefix, lemma_prefix_trans, strings_hold};
use crate::bytes::{lemma_u32_be_len, u32_be};
use crate::error::Fault;
use crate::fdt::node::{children_from, node_children};
use crate::fdt::{node_end, subtree_end, token_at, FdtToken, FDT_END_NODE};
use crate::model::canonical::{
    children_canonical, lemma_canonical_rest, lemma_canonical_unfold, node_canonical,
};
use crate::model::entries::insert_entry;
use crate::model::node::{
    lemma_model_children_unfold, lemma_model_node_unfold, model_children, model_node,
};
use crate::model::NodeView;
use vstd::prelude::*;

verus! {

/// The token that closes their parent stands after the nodes `cs`.
pub proof fn lemma_children_tail(
    b: Seq<u8>,
    cur: int,
    cs: Seq<(Seq<char>, NodeView)>,
    names: Seq<Seq<char>>,
)
    requires
        stands_at(b, cur, children_bytes(cs, names) + u32_be(FDT_END_NODE)),
    ensures
        token_at(b, cur + children_bytes(cs, names).len()) == Ok::<FdtToken, Fault>(
            FdtToken::EndNode,
        ),
        cur + children_bytes(cs, names).len() + 4 <= b.len(),
{
    lemma_u32_be_len(FDT_END_NODE);
    lemma_stands_split(b, cur, children_bytes(cs, names), u32_be(FDT_END_NODE));
    lemma_token_stands(b, cur + children_bytes(cs, names).len(), FDT_END_NODE);
}

/// A scan for the end of a node that meets the node `n` goes on after it,
/// as deep as it was.
pub proof fn lemma_node_skipped(
    b: Seq<u8>,
    at: int,
    n: NodeView,
    names: Seq<Seq<char>>,
    table: Seq<Seq<char>>,
    depth: nat,
)
    requires
        strings_hold(b, table),
        b.len() <= u32::MAX,
        is_prefix(node_names(n, names), table),
        node_canonical(n),
        stands_at(b, at, node_bytes(n, names)),
        at % 4 == 0,
    ensures
        subtree_end(b, at, depth) == subtree_end(b, at + node_bytes(n, names).len(), depth),
    decreases n, 1nat,
{
    lemma_canonical_unfold(n);
    lemma_node_shape(b, at, n, names, table);
    lemma_node_split(b, at, n, names);
    let pn = props_names(n.properties, names);
    let cs_at = children_place(at, n, names);
    lemma_children_skipped(b, cs_at, n.children, pn, table, depth + 1);
    lemma_children_tail(b, cs_at, n.children, pn);
    let close = cs_at + children_bytes(n.children, pn).len();
    crate::fdt::lemma_subtree_end_at_node(b, at, depth);
    crate::fdt::lemma_subtree_end_at_close(b, close, depth + 1);
    assert(subtree_end(b, at, depth) == subtree_end(b, cs_at, depth + 1));
    assert(subtree_end(b, close, depth + 1) == subtree_end(b, close + 4, depth));
}

/// A scan for the end of a node that meets the nodes `cs` goes on after
/// them, as deep as it was.
pub proof fn lemma_children_skipped(
    b: Seq<u8>,
    cur: int,
    cs: Seq<(Seq<char>, NodeView)>,
    names: Seq<Seq<char>>,
    table: Seq<Seq<char>>,
    depth: nat,
)
    requires
        strings_hold(b, table),
        b.len() <= u32::MAX,
        is_prefix(children_names(cs, names), table),
        children_canonical(cs),
        stands_at(b, cur, children_bytes(cs, names) + u32_be(FDT_END_NODE)),
        cur % 4 == 0,
    ensures
        subtree_end(b, cur, depth) == subtree_end(b, cur + children_bytes(cs, names).len(), depth),
    decreases cs, 0nat,
{
    lemma_children_head(b, cur, cs, names);
    if cs.len() > 0 {
        let c = cs[0].1;
        let nn = node_names(c, names);
        lemma_canonical_rest(cs);
        lemma_children_step(cs, names);
        lemma_children_names_extend(cs.skip(1), nn);
        lemma_prefix_trans(nn, children_names(cs.skip(1), nn), table);
        lemma_node_bytes_aligned(c, names);
        lemma_node_skipped(b, cur, c, names, table, depth);
        lemma_children_skipped(b, cur + node_bytes(c, names).len(), cs.skip(1), nn, table, depth);
    }
}

/// Where the node `n` stands, it ends after its bytes.
pub proof fn lemma_node_ends(
    b: Seq<u8>,
    at: int,
    n: NodeView,
    names: Seq<Seq<char>>,
    table: Seq<Seq<char>>,
)
    requires
        strings_hold(b, table),
        b.len() <= u32::MAX,
        is_prefix(node_names(n, names), table),
        node_canonical(n),
        stands_at(b, at, node_bytes(n, names)),
        at % 4 == 0,
    ensures
        node_end(b, at) == Ok::<int, Fault>(at + node_bytes(n, names).len()),
{
    reveal(node_end);
    lemma_canonical_unfold(n);
    lemma_node_shape(b, at, n, names, table);
    lemma_node_split(b, at, n, names);
    let pn = props_names(n.properties, names);
    let cs_at = children_place(at, n, names);
    lemma_children_skipped(b, cs_at, n.children, pn, table, 0);
    lemma_children_tail(b, cs_at, n.children, pn);
    crate::fdt::lemma_subtree_end_at_close(b, cs_at + children_bytes(n.children, pn).len(), 0);
}

/// An iteration over children that stands at a node yields it and goes on
/// after it.
pub proof fn lemma_children_from_node(b: Seq<u8>, cur: int, next: int)
    requires
        0 <= cur,
        token_at(b, cur) == Ok::<FdtToken, Fault>(FdtToken::BeginNode),
        node_end(b, cur) == Ok::<int, Fault>(next),
    ensures
        children_from(b, cur) == seq![Ok::<int, Fault>(cur)] + children_from(b, next),
{
    reveal_with_fuel(children_from, 2);
}

/// An iteration over children that stands at the token that closes their
/// parent yields nothing.
pub proof fn lemma_children_from_close(b: Seq<u8>, cur: int)
    requires
        0 <= cur,
        token_at(b, cur) == Ok::<FdtToken, Fault>(FdtToken::EndNode),
    ensures
        children_from(b, cur) == Seq::<Result<int, Fault>>::empty(),
{
    reveal_with_fuel(children_from, 2);
}

/// Where the node `n` stands, reading finds `n`.
pub proof fn lemma_node_read(
    b: Seq<u8>,
    at: int,
    n: NodeView,
    names: Seq<Seq<char>>,
    table: Seq<Seq<char>>,
)
    requires
        strings_hold(b, table),
        b.len() <= u32::MAX,
        is_prefix(node_names(n, names), table),
        node_canonical(n),
        stands_at(b, at, node_bytes(n, names)),
        at % 4 == 0,
    ensures
        model_node(b, at) == Ok::<NodeView, Fault>(n),
    decreases n, 1nat,
{
    reveal(node_children);
    lemma_canonical_unfold(n);
    lemma_node_shape(b, at, n, names, table);
    lemma_node_split(b, at, n, names);
    let pn = props_names(n.properties, names);
    let cs_at = children_place(at, n, names);
    lemma_children_read(b, cs_at, n.children, pn, table, at, Seq::empty());
    assert(Seq::<(Seq<char>, NodeView)>::empty() + n.children =~= n.children);
    lemma_insert_all_distinct(Seq::<(Seq<char>, NodeView)>::empty(), n.children);
    lemma_model_node_unfold(b, at);
}

/// Where the nodes `cs` stand, reading finds them and inserts each of
/// them.
pub proof fn lemma_children_read(
    b: Seq<u8>,
    cur: int,
    cs: Seq<(Seq<char>, NodeView)>,
    names: Seq<Seq<char>>,
    table: Seq<Seq<char>>,
    parent: int,
    acc: Seq<(Seq<char>, NodeView)>,
)
    requires
        strings_hold(b, table),
        b.len() <= u32::MAX,
        is_prefix(children_names(cs, names), table),
        children_canonical(cs),
        stands_at(b, cur, children_bytes(cs, names) + u32_be(FDT_END_NODE)),
        cur % 4 == 0,
        parent < cur,
    ensures
        model_children(b, children_from(b, cur), parent, acc) == Ok::<
            Seq<(Seq<char>, NodeView)>,
            Fault,
        >(insert_all(acc, cs)),
    decreases cs, 0nat,
{
    lemma_children_head(b, cur, cs, names);
    let items = children_from(b, cur);
    lemma_model_children_unfold(b, items, parent, acc);
    if cs.len() == 0 {
        lemma_children_from_close(b, cur);
    } else {
        let c = cs[0].1;
        let nn = node_names(c, names);
        lemma_canonical_rest(cs);
        lemma_children_step(cs, names);
        lemma_children_names_extend(cs.skip(1), nn);
        lemma_prefix_trans(nn, children_names(cs.skip(1), nn), table);
        lemma_node_bytes_aligned(c, names);
        lemma_node_ends(b, cur, c, names, table);
        lemma_node_read(b, cur, c, names, table);
        let next = cur + node_bytes(c, names).len();
        lemma_children_from_node(b, cur, next);
        assert(items == seq![Ok::<int, Fault>(cur)] + children_from(b, next));
        assert(items[0] == Ok::<int, Fault>(cur));
        assert(items.skip(1) =~= children_from(b, next));
        lemma_children_read(
            b,
            next,
            cs.skip(1),
            nn,
            table,
            parent,
            insert_entry(acc, cs[0].0, cs[0].1),
        );
    }
}

} // verus!
