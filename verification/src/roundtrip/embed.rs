//! Bytes that stand at a place in a blob, and what reading finds there.

use crate::bytes::{
    align4, be_u32, first_nul, lemma_be_u32_of_encoding, lemma_first_nul_is, lemma_u32_be_len, u32_be,
};
use crate::error::Fault;
use crate::fdt::{body_start, node_name, token_at, token_of, FdtToken, FDT_BEGIN_NODE};
use crate::model::canonical::{lemma_nul_free_bytes, no_zero_byte, nul_free};
use crate::writer::{begin_node_bytes, padded, padding, zeros};
use vstd::prelude::*;
use vstd::utf8::encode_utf8;

verus! {

/// The bytes `x` stand in `b` at `at`.
pub open spec fn stands_at(b: Seq<u8>, at: int, x: Seq<u8>) -> bool {
    0 <= at && at + x.len() <= b.len() && b.subrange(at, at + x.len()) == x
}

/// Where `x` followed by `y` stands, `x` stands and `y` stands after it.
pub proof fn lemma_stands_split(b: Seq<u8>, at: int, x: Seq<u8>, y: Seq<u8>)
    requires
        stands_at(b, at, x + y),
    ensures
        stands_at(b, at, x),
        stands_at(b, at + x.len(), y),
{
    let whole = b.subrange(at, at + (x + y).len());
    assert(b.subrange(at, at + x.len()) =~= whole.subrange(0, x.len() as int));
    assert(whole.subrange(0, x.len() as int) =~= x);
    assert(b.subrange(at + x.len(), at + x.len() + y.len()) =~= whole.subrange(
        x.len() as int,
        (x + y).len() as int,
    ));
    assert(whole.subrange(x.len() as int, (x + y).len() as int) =~= y);
}

/// A byte of what stands at `at` is that byte of the blob.
pub proof fn lemma_stands_index(b: Seq<u8>, at: int, x: Seq<u8>, i: int)
    requires
        stands_at(b, at, x),
        0 <= i < x.len(),
    ensures
        b[at + i] == x[i],
{
    assert(b.subrange(at, at + x.len())[i] == b[at + i]);
}

/// The length of padded bytes: the next multiple of four.
pub proof fn lemma_padded_len(s: Seq<u8>)
    ensures
        padded(s).len() == align4(s.len() as int),
        padded(s).len() % 4 == 0,
        s.len() <= padded(s).len() < s.len() + 4,
{
}

/// The token whose encoding stands at `at` is read there.
pub proof fn lemma_token_stands(b: Seq<u8>, at: int, value: u32)
    requires
        stands_at(b, at, u32_be(value)),
    ensures
        at + 4 <= b.len(),
        be_u32(b, at) == value,
        token_at(b, at) == match token_of(value) {
            Ok(t) => Ok::<FdtToken, Fault>(t),
            Err(v) => Err(Fault { kind: crate::error::FdtErrorKind::BadToken(v), offset: at }),
        },
{
    lemma_u32_be_len(value);
    lemma_be_u32_of_encoding(b, at, value);
}

/// Where text without a zero byte stands before a zero byte, the first
/// zero byte from its start on is that one.
pub proof fn lemma_text_stands(b: Seq<u8>, s: int, e: Seq<u8>)
    requires
        stands_at(b, s, e + seq![0u8]),
        no_zero_byte(e),
    ensures
        first_nul(b, s) == s + e.len(),
        s + e.len() < b.len(),
        b.subrange(s, s + e.len()) == e,
{
    let text = e + seq![0u8];
    assert forall|i: int| s <= i < s + e.len() implies b[i] != 0 by {
        lemma_stands_index(b, s, text, i - s);
        assert(text[i - s] == e[i - s]);
    }
    lemma_stands_index(b, s, text, e.len() as int);
    assert(text[e.len() as int] == 0);
    lemma_first_nul_is(b, s, s + e.len());
    assert(b.subrange(s, s + e.len()) =~= e) by {
        assert forall|i: int| 0 <= i < e.len() implies b.subrange(s, s + e.len())[i] == e[i] by {
            lemma_stands_index(b, s, text, i);
            assert(text[i] == e[i]);
        }
    }
}

/// Where the opening of a node named `name` stands, the token is read, and
/// the name with its padding stands after it.
pub proof fn lemma_begin_node_parts(b: Seq<u8>, at: int, name: Seq<char>)
    requires
        stands_at(b, at, begin_node_bytes(name)),
    ensures
        begin_node_bytes(name).len() % 4 == 0,
        begin_node_bytes(name).len() >= 8,
        begin_node_bytes(name).len() == 4 + align4(encode_utf8(name).len() as int + 1),
        token_at(b, at) == Ok::<FdtToken, Fault>(FdtToken::BeginNode),
        stands_at(b, at + 4, encode_utf8(name) + seq![0u8]),
{
    let text = encode_utf8(name) + seq![0u8];
    lemma_u32_be_len(FDT_BEGIN_NODE);
    lemma_padded_len(text);
    lemma_stands_split(b, at, u32_be(FDT_BEGIN_NODE), padded(text));
    lemma_token_stands(b, at, FDT_BEGIN_NODE);
    lemma_stands_split(b, at + 4, text, zeros(padding(text.len() as int)));
}

/// Where the opening of a node named `name` stands, the name is read.
pub proof fn lemma_begin_node_name(b: Seq<u8>, at: int, name: Seq<char>)
    requires
        stands_at(b, at, begin_node_bytes(name)),
        nul_free(name),
    ensures
        node_name(b, at) == Ok::<Seq<char>, Fault>(name),
{
    reveal(node_name);
    lemma_nul_free_bytes(name);
    lemma_begin_node_parts(b, at, name);
    lemma_text_stands(b, at + 4, encode_utf8(name));
    assert(b.subrange(0, b.len() as int) =~= b);
    vstd::utf8::encode_utf8_valid_utf8(name);
    vstd::utf8::encode_utf8_decode_utf8(name);
}

/// Where the opening of a node named `name` stands, the name is read, and
/// the body of the node starts after the opening.
pub proof fn lemma_begin_node_stands(b: Seq<u8>, at: int, name: Seq<char>)
    requires
        stands_at(b, at, begin_node_bytes(name)),
        at % 4 == 0,
        nul_free(name),
    ensures
        begin_node_bytes(name).len() % 4 == 0,
        begin_node_bytes(name).len() >= 8,
        token_at(b, at) == Ok::<FdtToken, Fault>(FdtToken::BeginNode),
        node_name(b, at) == Ok::<Seq<char>, Fault>(name),
        body_start(b, at) == Ok::<int, Fault>(at + begin_node_bytes(name).len()),
{
    lemma_nul_free_bytes(name);
    lemma_begin_node_parts(b, at, name);
    lemma_begin_node_name(b, at, name);
    lemma_text_stands(b, at + 4, encode_utf8(name));
    let n = encode_utf8(name).len() as int;
    lemma_align4_shift(at + 4, n + 1);
    assert(first_nul(b, at + 4) == at + 4 + n);
    assert(align4(at + 4 + n + 1) == at + begin_node_bytes(name).len());
}

/// Rounding up goes through a multiple of four.
pub proof fn lemma_align4_shift(base: int, x: int)
    requires
        base % 4 == 0,
    ensures
        align4(base + x) == base + align4(x),
{
}

} // verus!
