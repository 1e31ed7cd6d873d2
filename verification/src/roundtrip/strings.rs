//! The strings block: where a name stands in it, and that it is found
//! there.

use super::embed::{lemma_stands_index, stands_at};
use crate::model::canonical::{lemma_nul_free_bytes, nul_free};
use crate::bytes::lemma_first_nul_is;
use crate::error::Fault;
use crate::fdt::{hdr_off_dt_strings, hdr_size_dt_strings, strings_entry};
use crate::writer::{intern, name_offset, name_table_bytes};
use vstd::prelude::*;
use vstd::utf8::encode_utf8;

verus! {

/// The names `a` are the first of the names `b`.
pub open spec fn is_prefix(a: Seq<Seq<char>>, b: Seq<Seq<char>>) -> bool {
    a.len() <= b.len() && b.take(a.len() as int) == a
}

/// Names are the first of themselves.
pub proof fn lemma_prefix_refl(a: Seq<Seq<char>>)
    ensures
        is_prefix(a, a),
{
    assert(a.take(a.len() as int) =~= a);
}

/// The first of the first are the first.
pub proof fn lemma_prefix_trans(a: Seq<Seq<char>>, b: Seq<Seq<char>>, c: Seq<Seq<char>>)
    requires
        is_prefix(a, b),
        is_prefix(b, c),
    ensures
        is_prefix(a, c),
{
    assert(c.take(a.len() as int) =~= c.take(b.len() as int).take(a.len() as int));
}

/// Names that are interned stay, and the new one comes after them.
pub proof fn lemma_intern_extends(names: Seq<Seq<char>>, name: Seq<char>)
    ensures
        is_prefix(names, intern(names, name)),
        name_offset(intern(names, name), name) is Some,
{
    if name_offset(names, name) is Some {
        lemma_prefix_refl(names);
    } else {
        let more = names.push(name);
        assert(more.take(names.len() as int) =~= names);
        assert(more.drop_last() =~= names);
    }
}

/// The offset of a name among the first names is its offset among all of
/// them.
pub proof fn lemma_offset_prefix(a: Seq<Seq<char>>, b: Seq<Seq<char>>, name: Seq<char>)
    requires
        is_prefix(a, b),
        name_offset(a, name) is Some,
    ensures
        name_offset(b, name) == name_offset(a, name),
{
    crate::writer::lemma_name_offset_stable(b, a.len() as int, name);
}

/// At its offset in the strings block a name stands, followed by a zero
/// byte.
pub proof fn lemma_table_entry(names: Seq<Seq<char>>, name: Seq<char>)
    requires
        name_offset(names, name) is Some,
    ensures
        stands_at(
            name_table_bytes(names),
            name_offset(names, name).unwrap(),
            encode_utf8(name) + seq![0u8],
        ),
    decreases names.len(),
{
    let t = name_table_bytes(names);
    let o = name_offset(names, name).unwrap();
    let entry = encode_utf8(name) + seq![0u8];
    if names.len() > 0 {
        let shorter = names.drop_last();
        let ts = name_table_bytes(shorter);
        assert(t == ts + encode_utf8(names.last()) + seq![0u8]);
        if name_offset(shorter, name) is Some {
            lemma_table_entry(shorter, name);
            assert(t.subrange(o, o + entry.len()) =~= ts.subrange(o, o + entry.len()));
        } else {
            assert(names.last() == name);
            assert(o == ts.len());
            assert(t.subrange(o, o + entry.len()) =~= entry);
        }
    }
}

/// The strings block of the blob `b` holds the names `names`.
pub open spec fn strings_hold(b: Seq<u8>, names: Seq<Seq<char>>) -> bool {
    &&& hdr_size_dt_strings(b) == name_table_bytes(names).len()
    &&& stands_at(b, hdr_off_dt_strings(b) as int, name_table_bytes(names))
}

/// A name that is in the strings block is found at its offset.
pub proof fn lemma_name_found(b: Seq<u8>, names: Seq<Seq<char>>, name: Seq<char>)
    requires
        strings_hold(b, names),
        name_offset(names, name) is Some,
        nul_free(name),
    ensures
        strings_entry(b, name_offset(names, name).unwrap()) == Ok::<Seq<char>, Fault>(name),
{
    lemma_nul_free_bytes(name);
    let t = name_table_bytes(names);
    let o = name_offset(names, name).unwrap();
    let e = encode_utf8(name);
    let entry = e + seq![0u8];
    let start = hdr_off_dt_strings(b) as int;
    let end = start + hdr_size_dt_strings(b);
    lemma_table_entry(names, name);
    let s = start + o;
    let head = b.subrange(0, end);
    assert forall|i: int| 0 <= i < entry.len() implies #[trigger] b[s + i] == entry[i] by {
        lemma_stands_index(t, o, entry, i);
        lemma_stands_index(b, start, t, o + i);
    }
    assert forall|i: int| s <= i < s + e.len() implies head[i] != 0 by {
        assert(b[s + (i - s)] == entry[i - s]);
        assert(entry[i - s] == e[i - s]);
    }
    assert(head[s + e.len()] == 0) by {
        assert(b[s + e.len()] == entry[e.len() as int]);
    }
    lemma_first_nul_is(head, s, s + e.len());
    assert(b.subrange(s, s + e.len()) =~= e) by {
        assert forall|i: int| 0 <= i < e.len() implies b.subrange(s, s + e.len())[i] == e[i] by {
            assert(b[s + i] == entry[i]);
        }
    }
    vstd::utf8::encode_utf8_valid_utf8(name);
    vstd::utf8::encode_utf8_decode_utf8(name);
}

} // verus!
