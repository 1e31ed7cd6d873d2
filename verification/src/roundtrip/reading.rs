//! What reading finds where the serialiser has written.

use super::embed::{
    lemma_begin_node_stands, lemma_padded_len, lemma_stands_split, lemma_token_stands, stands_at,
};
use super::layout::{
    children_bytes, children_names, lemma_children_names_extend, lemma_children_step,
    lemma_node_parts, lemma_prop_bytes_len, lemma_props_bytes_aligned, lemma_props_names_extend,
    lemma_props_step, node_bytes, node_names, props_bytes, props_names,
};
use super::strings::{
    is_prefix, lemma_intern_extends, lemma_name_found, lemma_offset_prefix, lemma_prefix_trans,
    lemma_table_entry, strings_hold,
};
use crate::bytes::{align4, be_u32, lemma_u32_be_len, u32_be};
use crate::error::Fault;
use crate::fdt::property::{node_props, prop_at, props_from, RawProperty};
use crate::fdt::{
    children_start, node_name, prop_extent, skip_props, strings_entry, token_at, FdtToken,
    FDT_BEGIN_NODE, FDT_END_NODE, FDT_PROP,
};
use crate::model::canonical::{nul_free, props_canonical};
use crate::model::entries::{distinct_keys, entry_index, insert_entry, lemma_entry_index};
use crate::model::node::model_props;
use crate::model::{NodeView, PropertyView};
use crate::writer::{begin_node_bytes, intern, name_offset, padded, padding, prop_bytes, zeros};
use vstd::prelude::*;
use vstd::utf8::encode_utf8;

verus! {

/// The entries `xs` inserted into `acc`, one after the other, each under
/// its key.
pub open spec fn insert_all<T>(acc: Seq<(Seq<char>, T)>, xs: Seq<(Seq<char>, T)>) -> Seq<
    (Seq<char>, T),
>
    decreases xs.len(),
{
    if xs.len() == 0 {
        acc
    } else {
        insert_all(insert_entry(acc, xs[0].0, xs[0].1), xs.skip(1))
    }
}

/// Entries with keys that are all different are inserted last, in their
/// order.
pub proof fn lemma_insert_all_distinct<T>(acc: Seq<(Seq<char>, T)>, xs: Seq<(Seq<char>, T)>)
    requires
        distinct_keys(acc + xs),
    ensures
        insert_all(acc, xs) == acc + xs,
    decreases xs.len(),
{
    if xs.len() == 0 {
        assert(acc + xs =~= acc);
    } else {
        let all = acc + xs;
        lemma_entry_index(acc, xs[0].0);
        if entry_index(acc, xs[0].0) is Some {
            let i = entry_index(acc, xs[0].0).unwrap();
            assert(all[i] == acc[i]);
            assert(all[acc.len() as int] == xs[0]);
            assert(false);
        }
        let acc1 = acc.push(xs[0]);
        assert(acc1 + xs.skip(1) =~= all);
        lemma_insert_all_distinct(acc1, xs.skip(1));
    }
}

/// Where a property stands, its parts stand one after the other: the
/// token, the length of the value, the offset of the name, and the value.
pub proof fn lemma_prop_parts(b: Seq<u8>, at: int, p: PropertyView, names: Seq<Seq<char>>)
    requires
        stands_at(b, at, prop_bytes(p, names)),
    ensures
        prop_bytes(p, names).len() == 12 + padded(p.value).len(),
        token_at(b, at) == Ok::<FdtToken, Fault>(FdtToken::Prop),
        be_u32(b, at + 4) == p.value.len() as u32,
        be_u32(b, at + 8) == name_offset(intern(names, p.name), p.name).unwrap() as u32,
        stands_at(b, at + 12, p.value),
{
    let o = name_offset(intern(names, p.name), p.name).unwrap();
    let t0 = u32_be(FDT_PROP);
    let t1 = u32_be(p.value.len() as u32);
    let t2 = u32_be(o as u32);
    let pv = padded(p.value);
    lemma_prop_bytes_len(p, names);
    lemma_u32_be_len(FDT_PROP);
    lemma_u32_be_len(p.value.len() as u32);
    lemma_u32_be_len(o as u32);
    assert(prop_bytes(p, names) == t0 + t1 + t2 + pv);
    lemma_stands_split(b, at, t0 + t1 + t2, pv);
    lemma_stands_split(b, at, t0 + t1, t2);
    lemma_stands_split(b, at, t0, t1);
    lemma_token_stands(b, at, FDT_PROP);
    lemma_token_stands(b, at + 4, p.value.len() as u32);
    lemma_token_stands(b, at + 8, o as u32);
    lemma_stands_split(b, at + 12, p.value, zeros(padding(p.value.len() as int)));
}

/// The name of a property that stands in a blob is found in the strings
/// block of the blob.
pub proof fn lemma_prop_name(
    b: Seq<u8>,
    p: PropertyView,
    names: Seq<Seq<char>>,
    table: Seq<Seq<char>>,
)
    requires
        strings_hold(b, table),
        b.len() <= u32::MAX,
        is_prefix(intern(names, p.name), table),
        nul_free(p.name),
    ensures
        name_offset(intern(names, p.name), p.name) is Some,
        0 <= name_offset(intern(names, p.name), p.name).unwrap() <= u32::MAX,
        strings_entry(b, name_offset(intern(names, p.name), p.name).unwrap()) == Ok::<
            Seq<char>,
            Fault,
        >(p.name),
{
    lemma_intern_extends(names, p.name);
    lemma_offset_prefix(intern(names, p.name), table, p.name);
    lemma_table_entry(table, p.name);
    lemma_name_found(b, table, p.name);
}

/// Where a property stands, it is read.
pub proof fn lemma_prop_stands(
    b: Seq<u8>,
    at: int,
    p: PropertyView,
    names: Seq<Seq<char>>,
    table: Seq<Seq<char>>,
)
    requires
        strings_hold(b, table),
        b.len() <= u32::MAX,
        is_prefix(intern(names, p.name), table),
        nul_free(p.name),
        stands_at(b, at, prop_bytes(p, names)),
        at % 4 == 0,
    ensures
        token_at(b, at) == Ok::<FdtToken, Fault>(FdtToken::Prop),
        prop_extent(b, at) == Ok::<int, Fault>(at + prop_bytes(p, names).len()),
        prop_at(b, at) == Ok::<(RawProperty, int), Fault>(
            (
                RawProperty { name: p.name, value: p.value, value_offset: at + 12 },
                at + prop_bytes(p, names).len(),
            ),
        ),
{
    lemma_prop_parts(b, at, p, names);
    lemma_prop_name(b, p, names, table);
    lemma_padded_len(p.value);
    assert(align4(at + 12 + p.value.len()) == at + 12 + padded(p.value).len());
}

/// Where properties stand before a token that opens or closes a node, they
/// are passed over as a whole, and reading them inserts each of them.
pub proof fn lemma_props_stand(
    b: Seq<u8>,
    at: int,
    ps: Seq<(Seq<char>, PropertyView)>,
    names: Seq<Seq<char>>,
    table: Seq<Seq<char>>,
    acc: Seq<(Seq<char>, PropertyView)>,
)
    requires
        strings_hold(b, table),
        b.len() <= u32::MAX,
        is_prefix(props_names(ps, names), table),
        forall|i: int|
            0 <= i < ps.len() ==> (#[trigger] ps[i]).0 == ps[i].1.name && nul_free(ps[i].1.name),
        stands_at(b, at, props_bytes(ps, names)),
        at % 4 == 0,
        token_at(b, at + props_bytes(ps, names).len()) == Ok::<FdtToken, Fault>(
            FdtToken::BeginNode,
        ) || token_at(b, at + props_bytes(ps, names).len()) == Ok::<FdtToken, Fault>(
            FdtToken::EndNode,
        ),
    ensures
        skip_props(b, at) == Ok::<int, Fault>(at + props_bytes(ps, names).len()),
        model_props(props_from(b, at), acc) == Ok::<Seq<(Seq<char>, PropertyView)>, Fault>(
            insert_all(acc, ps),
        ),
    decreases ps.len(),
{
    crate::fdt::lemma_skip_props_unfold(b, at);
    crate::fdt::property::lemma_props_from_unfold(b, at);
    if ps.len() == 0 {
        assert(props_from(b, at) =~= Seq::<Result<RawProperty, Fault>>::empty());
    } else {
        let p = ps[0].1;
        let names1 = intern(names, p.name);
        let pb = prop_bytes(p, names);
        let rest = ps.skip(1);
        lemma_props_step(ps, names);
        lemma_props_names_extend(rest, names1);
        lemma_prefix_trans(names1, props_names(rest, names1), table);
        lemma_stands_split(b, at, pb, props_bytes(rest, names1));
        lemma_prop_stands(b, at, p, names, table);
        lemma_prop_bytes_len(p, names);
        let next = at + pb.len();
        assert forall|i: int| 0 <= i < rest.len() implies (#[trigger] rest[i]).0 == rest[i].1.name
            && nul_free(rest[i].1.name) by {
            assert(rest[i] == ps[i + 1]);
        }
        let acc1 = insert_entry(acc, ps[0].0, ps[0].1);
        lemma_props_stand(b, next, rest, names1, table, acc1);
        let raw = RawProperty { name: p.name, value: p.value, value_offset: at + 12 };
        let items = props_from(b, at);
        assert(items == seq![Ok::<RawProperty, Fault>(raw)] + props_from(b, next));
        assert(items[0] == Ok::<RawProperty, Fault>(raw));
        assert(items.skip(1) =~= props_from(b, next));
        assert((PropertyView { name: raw.name, value: raw.value }) == p);
    }
}

/// Where the children of the node `n` stand, where `n` stands at `at`.
pub open spec fn children_place(at: int, n: NodeView, names: Seq<Seq<char>>) -> int {
    at + begin_node_bytes(n.name).len() + props_bytes(n.properties, names).len()
}

/// What stands where nodes stand before the token that closes their
/// parent: the token that opens the first of them, and after the first the
/// rest; or the closing token where there is none.
pub proof fn lemma_children_head(
    b: Seq<u8>,
    cur: int,
    cs: Seq<(Seq<char>, NodeView)>,
    names: Seq<Seq<char>>,
)
    requires
        stands_at(b, cur, children_bytes(cs, names) + u32_be(FDT_END_NODE)),
    ensures
        cur + 4 <= b.len(),
        cs.len() == 0 ==> token_at(b, cur) == Ok::<FdtToken, Fault>(FdtToken::EndNode)
            && children_bytes(cs, names).len() == 0,
        cs.len() > 0 ==> token_at(b, cur) == Ok::<FdtToken, Fault>(FdtToken::BeginNode)
            && stands_at(b, cur, node_bytes(cs[0].1, names)) && stands_at(
            b,
            cur + node_bytes(cs[0].1, names).len(),
            children_bytes(cs.skip(1), node_names(cs[0].1, names)) + u32_be(FDT_END_NODE),
        ) && children_bytes(cs, names).len() == node_bytes(cs[0].1, names).len()
            + children_bytes(cs.skip(1), node_names(cs[0].1, names)).len(),
{
    let end = u32_be(FDT_END_NODE);
    let cb = children_bytes(cs, names);
    lemma_u32_be_len(FDT_END_NODE);
    if cs.len() == 0 {
        assert(cb =~= Seq::<u8>::empty());
        assert(cb + end =~= end);
        lemma_token_stands(b, cur, FDT_END_NODE);
    } else {
        let c = cs[0].1;
        lemma_children_step(cs, names);
        let nb = node_bytes(c, names);
        let rest = children_bytes(cs.skip(1), node_names(c, names));
        assert(cb + end =~= nb + (rest + end));
        lemma_stands_split(b, cur, nb, rest + end);
        lemma_node_parts(c, names);
        lemma_u32_be_len(FDT_BEGIN_NODE);
        let tail = padded(encode_utf8(c.name) + seq![0u8]) + props_bytes(c.properties, names)
            + children_bytes(c.children, props_names(c.properties, names)) + end;
        assert(nb =~= u32_be(FDT_BEGIN_NODE) + tail);
        lemma_stands_split(b, cur, u32_be(FDT_BEGIN_NODE), tail);
        lemma_token_stands(b, cur, FDT_BEGIN_NODE);
    }
}

/// Where the node `n` stands, its parts stand one after the other: its
/// opening, its properties, and its children with the closing token.
pub proof fn lemma_node_split(b: Seq<u8>, at: int, n: NodeView, names: Seq<Seq<char>>)
    requires
        stands_at(b, at, node_bytes(n, names)),
        at % 4 == 0,
    ensures
        stands_at(b, at, begin_node_bytes(n.name)),
        stands_at(b, at + begin_node_bytes(n.name).len(), props_bytes(n.properties, names)),
        stands_at(
            b,
            children_place(at, n, names),
            children_bytes(n.children, props_names(n.properties, names)) + u32_be(FDT_END_NODE),
        ),
        begin_node_bytes(n.name).len() % 4 == 0,
        begin_node_bytes(n.name).len() >= 8,
        children_place(at, n, names) % 4 == 0,
        node_bytes(n, names).len() == children_place(at, n, names) - at + children_bytes(
            n.children,
            props_names(n.properties, names),
        ).len() + 4,
{
    let begin = begin_node_bytes(n.name);
    let pb = props_bytes(n.properties, names);
    let pn = props_names(n.properties, names);
    let cb = children_bytes(n.children, pn);
    let end = u32_be(FDT_END_NODE);
    lemma_node_parts(n, names);
    lemma_u32_be_len(FDT_END_NODE);
    lemma_u32_be_len(FDT_BEGIN_NODE);
    lemma_padded_len(encode_utf8(n.name) + seq![0u8]);
    assert(node_bytes(n, names) =~= begin + (pb + (cb + end)));
    lemma_stands_split(b, at, begin, pb + (cb + end));
    lemma_stands_split(b, at + begin.len(), pb, cb + end);
    lemma_props_bytes_aligned(n.properties, names);
}

/// What reading finds where the node `n` stands: its name, its properties,
/// and the place of its children.
pub proof fn lemma_node_shape(
    b: Seq<u8>,
    at: int,
    n: NodeView,
    names: Seq<Seq<char>>,
    table: Seq<Seq<char>>,
)
    requires
        strings_hold(b, table),
        b.len() <= u32::MAX,
        is_prefix(node_names(n, names), table),
        nul_free(n.name),
        props_canonical(n.properties),
        stands_at(b, at, node_bytes(n, names)),
        at % 4 == 0,
    ensures
        at + 4 <= b.len(),
        token_at(b, at) == Ok::<FdtToken, Fault>(FdtToken::BeginNode),
        node_name(b, at) == Ok::<Seq<char>, Fault>(n.name),
        children_start(b, at) == Ok::<int, Fault>(children_place(at, n, names)),
        model_props(node_props(b, at), Seq::empty()) == Ok::<
            Seq<(Seq<char>, PropertyView)>,
            Fault,
        >(n.properties),
        is_prefix(children_names(n.children, props_names(n.properties, names)), table),
{
    reveal(node_props);
    let pn = props_names(n.properties, names);
    lemma_node_split(b, at, n, names);
    lemma_node_parts(n, names);
    lemma_begin_node_stands(b, at, n.name);
    let ps_at = at + begin_node_bytes(n.name).len();
    let cs_at = children_place(at, n, names);
    lemma_children_names_extend(n.children, pn);
    lemma_prefix_trans(pn, children_names(n.children, pn), table);
    lemma_children_head(b, cs_at, n.children, pn);
    lemma_props_stand(b, ps_at, n.properties, names, table, Seq::empty());
    assert(Seq::<(Seq<char>, PropertyView)>::empty() + n.properties =~= n.properties);
    lemma_insert_all_distinct(Seq::<(Seq<char>, PropertyView)>::empty(), n.properties);
}

} // verus!
