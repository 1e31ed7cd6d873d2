//! A read-only view of a flattened device tree blob.
//!
//! [`Fdt`] borrows the blob and never copies from it: nodes and properties
//! are found by scanning the structure block again from a byte offset. What
//! each scan yields is defined here as a function of the blob's bytes.

pub mod format;
pub mod node;
pub mod property;

pub use node::{FdtChildIter, FdtNode};
pub use property::{FdtPropIter, FdtProperty, FdtStringListIterator};

use crate::bytes::{
    align4_within, align_within, be_u32, be_u64, find_nul, first_nul, lemma_first_nul, read_be_u32,
    read_be_u64, str_from_utf8,
};
use crate::error::{outcome, Fault, FdtError, FdtErrorKind};
use crate::memreserve::MemoryReservation;
use crate::path::{bytes_eq, is_absolute, next_segment, segments_from};
use node::{child_item, node_children};
use vstd::prelude::*;
use vstd::utf8::{decode_utf8, encode_utf8, valid_utf8};

verus! {

/// Version of the format that this library reads and writes.
pub const FDT_VERSION: u32 = 17;

/// Size of a token, and the alignment of everything in the structure block.
pub const FDT_TAGSIZE: usize = 4;

/// Size of the header: ten 32-bit fields.
pub const FDT_HEADER_SIZE: usize = 40;

/// The magic number that opens a blob.
pub const FDT_MAGIC: u32 = 0xd00d_feed;

/// Token that opens a node.
pub const FDT_BEGIN_NODE: u32 = 0x1;

/// Token that closes a node.
pub const FDT_END_NODE: u32 = 0x2;

/// Token that opens a property.
pub const FDT_PROP: u32 = 0x3;

/// Token that stands for nothing.
pub const FDT_NOP: u32 = 0x4;

/// Token that closes the structure block.
pub const FDT_END: u32 = 0x9;

/// The header field `magic`.
pub open spec fn hdr_magic(b: Seq<u8>) -> u32 {
    be_u32(b, 0)
}

/// The header field `totalsize`.
pub open spec fn hdr_totalsize(b: Seq<u8>) -> u32 {
    be_u32(b, 4)
}

/// The header field `off_dt_struct`.
pub open spec fn hdr_off_dt_struct(b: Seq<u8>) -> u32 {
    be_u32(b, 8)
}

/// The header field `off_dt_strings`.
pub open spec fn hdr_off_dt_strings(b: Seq<u8>) -> u32 {
    be_u32(b, 12)
}

/// The header field `off_mem_rsvmap`.
pub open spec fn hdr_off_mem_rsvmap(b: Seq<u8>) -> u32 {
    be_u32(b, 16)
}

/// The header field `version`.
pub open spec fn hdr_version(b: Seq<u8>) -> u32 {
    be_u32(b, 20)
}

/// The header field `last_comp_version`.
pub open spec fn hdr_last_comp_version(b: Seq<u8>) -> u32 {
    be_u32(b, 24)
}

/// The header field `boot_cpuid_phys`.
pub open spec fn hdr_boot_cpuid_phys(b: Seq<u8>) -> u32 {
    be_u32(b, 28)
}

/// The header field `size_dt_strings`.
pub open spec fn hdr_size_dt_strings(b: Seq<u8>) -> u32 {
    be_u32(b, 32)
}

/// The header field `size_dt_struct`.
pub open spec fn hdr_size_dt_struct(b: Seq<u8>) -> u32 {
    be_u32(b, 36)
}

/// The header of a blob: ten 32-bit fields.
#[derive(Debug, Clone, Copy)]
pub struct FdtHeader {
    /// Magic number of the device tree.
    pub magic: u32,
    /// Total size of the device tree.
    pub totalsize: u32,
    /// Offset of the device tree structure.
    pub off_dt_struct: u32,
    /// Offset of the device tree strings.
    pub off_dt_strings: u32,
    /// Offset of the memory reservation map.
    pub off_mem_rsvmap: u32,
    /// Version of the device tree.
    pub version: u32,
    /// Last compatible version of the device tree.
    pub last_comp_version: u32,
    /// Physical ID of the boot CPU.
    pub boot_cpuid_phys: u32,
    /// Size of the device tree strings.
    pub size_dt_strings: u32,
    /// Size of the device tree structure.
    pub size_dt_struct: u32,
}

/// The header that the bytes `b` start with.
pub open spec fn header_of(b: Seq<u8>) -> FdtHeader {
    FdtHeader {
        magic: hdr_magic(b),
        totalsize: hdr_totalsize(b),
        off_dt_struct: hdr_off_dt_struct(b),
        off_dt_strings: hdr_off_dt_strings(b),
        off_mem_rsvmap: hdr_off_mem_rsvmap(b),
        version: hdr_version(b),
        last_comp_version: hdr_last_comp_version(b),
        boot_cpuid_phys: hdr_boot_cpuid_phys(b),
        size_dt_strings: hdr_size_dt_strings(b),
        size_dt_struct: hdr_size_dt_struct(b),
    }
}

impl FdtHeader {
    /// Magic number of the device tree.
    pub fn magic(&self) -> (v: u32)
        ensures
            v == self.magic,
    {
        self.magic
    }

    /// Total size of the device tree.
    pub fn totalsize(&self) -> (v: u32)
        ensures
            v == self.totalsize,
    {
        self.totalsize
    }

    /// Offset of the device tree structure.
    pub fn off_dt_struct(&self) -> (v: u32)
        ensures
            v == self.off_dt_struct,
    {
        self.off_dt_struct
    }

    /// Offset of the device tree strings.
    pub fn off_dt_strings(&self) -> (v: u32)
        ensures
            v == self.off_dt_strings,
    {
        self.off_dt_strings
    }

    /// Offset of the memory reservation map.
    pub fn off_mem_rsvmap(&self) -> (v: u32)
        ensures
            v == self.off_mem_rsvmap,
    {
        self.off_mem_rsvmap
    }

    /// Version of the device tree.
    pub fn version(&self) -> (v: u32)
        ensures
            v == self.version,
    {
        self.version
    }

    /// Last compatible version of the device tree.
    pub fn last_comp_version(&self) -> (v: u32)
        ensures
            v == self.last_comp_version,
    {
        self.last_comp_version
    }

    /// Physical ID of the boot CPU.
    pub fn boot_cpuid_phys(&self) -> (v: u32)
        ensures
            v == self.boot_cpuid_phys,
    {
        self.boot_cpuid_phys
    }

    /// Size of the device tree strings.
    pub fn size_dt_strings(&self) -> (v: u32)
        ensures
            v == self.size_dt_strings,
    {
        self.size_dt_strings
    }

    /// Size of the device tree structure.
    pub fn size_dt_struct(&self) -> (v: u32)
        ensures
            v == self.size_dt_struct,
    {
        self.size_dt_struct
    }
}

/// The first inconsistency among the header's offsets and sizes, if any:
/// the blocks must come in the order reservations, structure, strings, and
/// lie inside the blob.
pub open spec fn layout_fault(b: Seq<u8>) -> Option<Fault> {
    let len = b.len() as int;
    let off_struct = hdr_off_dt_struct(b) as int;
    let off_strings = hdr_off_dt_strings(b) as int;
    if hdr_off_mem_rsvmap(b) > off_struct {
        Some(
            Fault {
                kind: FdtErrorKind::InvalidHeader("dt_struct not after memrsvmap"),
                offset: 16,
            },
        )
    } else if off_struct > len {
        Some(
            Fault { kind: FdtErrorKind::InvalidHeader("struct offset out of bounds"), offset: 8 },
        )
    } else if off_strings > len {
        Some(
            Fault {
                kind: FdtErrorKind::InvalidHeader("strings offset out of bounds"),
                offset: 12,
            },
        )
    } else if off_struct + hdr_size_dt_struct(b) > len {
        Some(Fault { kind: FdtErrorKind::InvalidHeader("struct block overflows"), offset: 36 })
    } else if off_strings + hdr_size_dt_strings(b) > len {
        Some(Fault { kind: FdtErrorKind::InvalidHeader("strings block overflows"), offset: 32 })
    } else if off_struct + hdr_size_dt_struct(b) > off_strings {
        Some(
            Fault {
                kind: FdtErrorKind::InvalidHeader("strings block not after struct block"),
                offset: 12,
            },
        )
    } else {
        None
    }
}

/// Why `b` is refused as a blob, if it is: the first of the checks that
/// fails, with the offset of the header field it concerns.
pub open spec fn header_fault(b: Seq<u8>) -> Option<Fault> {
    if b.len() < 40 {
        Some(Fault { kind: FdtErrorKind::InvalidLength, offset: 0 })
    } else if hdr_magic(b) != FDT_MAGIC {
        Some(Fault { kind: FdtErrorKind::InvalidMagic, offset: 0 })
    } else if !(hdr_last_comp_version(b) <= FDT_VERSION <= hdr_version(b)) {
        Some(Fault { kind: FdtErrorKind::UnsupportedVersion(hdr_version(b)), offset: 20 })
    } else if hdr_totalsize(b) != b.len() {
        Some(Fault { kind: FdtErrorKind::InvalidLength, offset: 4 })
    } else {
        layout_fault(b)
    }
}

/// A token in the device tree structure.
#[derive(Debug, PartialEq, Eq, Clone, Copy, Structural)]
pub enum FdtToken {
    /// Opens a node; the node's name follows.
    BeginNode,
    /// Closes the node that was opened last.
    EndNode,
    /// Opens a property; length, name offset and value follow.
    Prop,
    /// Stands for nothing.
    Nop,
    /// Closes the structure block.
    End,
}

/// The token that the value `v` stands for, or `v` itself where it stands
/// for none.
pub open spec fn token_of(v: u32) -> Result<FdtToken, u32> {
    if v == FDT_BEGIN_NODE {
        Ok(FdtToken::BeginNode)
    } else if v == FDT_END_NODE {
        Ok(FdtToken::EndNode)
    } else if v == FDT_PROP {
        Ok(FdtToken::Prop)
    } else if v == FDT_NOP {
        Ok(FdtToken::Nop)
    } else if v == FDT_END {
        Ok(FdtToken::End)
    } else {
        Err(v)
    }
}

impl FdtToken {
    /// Reads a token from its 32-bit value.
    pub fn try_from(value: u32) -> (r: Result<FdtToken, u32>)
        ensures
            r == token_of(value),
    {
        if value == FDT_BEGIN_NODE {
            Ok(FdtToken::BeginNode)
        } else if value == FDT_END_NODE {
            Ok(FdtToken::EndNode)
        } else if value == FDT_PROP {
            Ok(FdtToken::Prop)
        } else if value == FDT_NOP {
            Ok(FdtToken::Nop)
        } else if value == FDT_END {
            Ok(FdtToken::End)
        } else {
            Err(value)
        }
    }
}

/// The token at `off`: a length error where fewer than four bytes are left,
/// a bad-token error where the value there stands for no token.
pub open spec fn token_at(b: Seq<u8>, off: int) -> Result<FdtToken, Fault> {
    if off < 0 || off + 4 > b.len() {
        Err(Fault { kind: FdtErrorKind::InvalidLength, offset: off })
    } else {
        match token_of(be_u32(b, off)) {
            Ok(t) => Ok(t),
            Err(v) => Err(Fault { kind: FdtErrorKind::BadToken(v), offset: off }),
        }
    }
}

/// The NUL-terminated string that starts at `start` and ends before `end`.
pub open spec fn cstring_in(b: Seq<u8>, start: int, end: int) -> Result<Seq<char>, Fault> {
    let n = first_nul(b.subrange(0, end), start);
    if n >= end || !valid_utf8(b.subrange(start, n)) {
        Err(Fault { kind: FdtErrorKind::InvalidString, offset: start })
    } else {
        Ok(decode_utf8(b.subrange(start, n)))
    }
}

/// `x`, or the largest `usize` where `x` is beyond it.
pub open spec fn clip(x: int) -> int {
    if x > usize::MAX {
        usize::MAX as int
    } else {
        x
    }
}

/// The property name that stands at `nameoff` in the strings block.
pub open spec fn strings_entry(b: Seq<u8>, nameoff: int) -> Result<Seq<char>, Fault> {
    let start = hdr_off_dt_strings(b) as int;
    let end = start + hdr_size_dt_strings(b);
    if start + nameoff >= end {
        Err(Fault { kind: FdtErrorKind::InvalidLength, offset: clip(start + nameoff) })
    } else {
        cstring_in(b, start + nameoff, end)
    }
}

/// The name of the node whose `BeginNode` token is at `off`.
#[verifier::opaque]
pub open spec fn node_name(b: Seq<u8>, off: int) -> Result<Seq<char>, Fault> {
    cstring_in(b, off + 4, b.len() as int)
}

/// Where the body of the node at `off` starts: after the token, the name,
/// its terminator and the padding.
pub open spec fn body_start(b: Seq<u8>, off: int) -> Result<int, Fault> {
    let n = first_nul(b, off + 4);
    if n >= b.len() {
        Err(Fault { kind: FdtErrorKind::InvalidString, offset: off + 4 })
    } else {
        Ok(align4_within(n + 1, b.len() as int))
    }
}

/// Where reading goes on after the property whose `Prop` token is at
/// `cur`: after the token, the two length fields, the value and its
/// padding. The value has to lie inside the blob.
pub open spec fn prop_extent(b: Seq<u8>, cur: int) -> Result<int, Fault> {
    if cur + 12 > b.len() {
        Err(Fault { kind: FdtErrorKind::InvalidLength, offset: cur })
    } else if cur + 12 + be_u32(b, cur + 4) > b.len() {
        Err(Fault { kind: FdtErrorKind::InvalidLength, offset: cur + 12 })
    } else {
        Ok(align4_within(cur + 12 + be_u32(b, cur + 4), b.len() as int))
    }
}

/// The first place at or after `cur` that holds neither a property nor a
/// `Nop`.
#[verifier::opaque]
pub open spec fn skip_props(b: Seq<u8>, cur: int) -> Result<int, Fault>
    decreases b.len() - cur,
{
    match token_at(b, cur) {
        Err(f) => Err(f),
        Ok(FdtToken::Prop) => match prop_extent(b, cur) {
            Err(f) => Err(f),
            Ok(n) => skip_props(b, n),
        },
        Ok(FdtToken::Nop) => skip_props(b, cur + 4),
        Ok(_) => Ok(cur),
    }
}

/// Where the children of the node at `off` start: after its name and its
/// properties.
pub open spec fn children_start(b: Seq<u8>, off: int) -> Result<int, Fault> {
    match body_start(b, off) {
        Err(f) => Err(f),
        Ok(c) => skip_props(b, c),
    }
}

/// What `skip_props` is, one step unfolded.
pub proof fn lemma_skip_props_unfold(b: Seq<u8>, cur: int)
    ensures
        skip_props(b, cur) == match token_at(b, cur) {
            Err(f) => Err::<int, Fault>(f),
            Ok(FdtToken::Prop) => match prop_extent(b, cur) {
                Err(f) => Err(f),
                Ok(n) => skip_props(b, n),
            },
            Ok(FdtToken::Nop) => skip_props(b, cur + 4),
            Ok(_) => Ok(cur),
        },
{
    reveal_with_fuel(skip_props, 2);
}

/// `body_start` moves forward and stays inside the blob.
pub proof fn lemma_body_start_bounds(b: Seq<u8>, off: int)
    requires
        0 <= off,
        off + 4 <= b.len(),
    ensures
        body_start(b, off) matches Ok(c) ==> off + 5 <= c <= b.len(),
{
    lemma_first_nul(b, off + 4);
}

/// `skip_props` moves forward, if at all, and stays inside the blob.
pub proof fn lemma_skip_props_bounds(b: Seq<u8>, cur: int)
    requires
        0 <= cur <= b.len(),
    ensures
        skip_props(b, cur) matches Ok(c) ==> cur <= c && c + 4 <= b.len(),
    decreases b.len() - cur,
{
    lemma_skip_props_unfold(b, cur);
    match token_at(b, cur) {
        Err(f) => {},
        Ok(FdtToken::Prop) => match prop_extent(b, cur) {
            Err(f) => {},
            Ok(n) => {
                lemma_skip_props_bounds(b, n);
            },
        },
        Ok(FdtToken::Nop) => {
            lemma_skip_props_bounds(b, cur + 4);
        },
        Ok(_) => {},
    }
}

/// Where the node ends inside which `cur` stands, `depth` levels further
/// down: past the `EndNode` that closes it. `cur` stands among the
/// children of some node, after that node's properties.
#[verifier::opaque]
pub open spec fn subtree_end(b: Seq<u8>, cur: int, depth: nat) -> Result<int, Fault>
    decreases b.len() - cur,
{
    if cur < 0 {
        Err(Fault { kind: FdtErrorKind::InvalidLength, offset: cur })
    } else {
        match token_at(b, cur) {
            Err(f) => Err(f),
            Ok(FdtToken::BeginNode) => match children_start(b, cur) {
                Err(f) => Err(f),
                Ok(c) => {
                    proof {
                        lemma_body_start_bounds(b, cur);
                        if body_start(b, cur) is Ok {
                            lemma_skip_props_bounds(b, body_start(b, cur)->Ok_0);
                        }
                    }
                    subtree_end(b, c, depth + 1)
                },
            },
            Ok(FdtToken::EndNode) => if depth == 0 {
                Ok(cur + 4)
            } else {
                subtree_end(b, cur + 4, (depth - 1) as nat)
            },
            Ok(FdtToken::Nop) => subtree_end(b, cur + 4, depth),
            Ok(FdtToken::Prop) => Err(Fault { kind: FdtErrorKind::BadToken(FDT_PROP), offset: cur }),
            Ok(FdtToken::End) => Err(Fault { kind: FdtErrorKind::BadToken(FDT_END), offset: cur }),
        }
    }
}

/// Where the node at `off` ends: past its `EndNode`, where its next sibling
/// would start.
#[verifier::opaque]
pub open spec fn node_end(b: Seq<u8>, off: int) -> Result<int, Fault> {
    match children_start(b, off) {
        Err(f) => Err(f),
        Ok(c) => subtree_end(b, c, 0),
    }
}

/// `subtree_end` moves forward and stays inside the blob.
pub proof fn lemma_subtree_end_bounds(b: Seq<u8>, cur: int, depth: nat)
    requires
        0 <= cur <= b.len(),
    ensures
        subtree_end(b, cur, depth) matches Ok(e) ==> cur + 4 <= e <= b.len(),
    decreases b.len() - cur,
{
    reveal_with_fuel(subtree_end, 2);
    match token_at(b, cur) {
        Err(f) => {},
        Ok(FdtToken::BeginNode) => {
            lemma_body_start_bounds(b, cur);
            if body_start(b, cur) is Ok {
                lemma_skip_props_bounds(b, body_start(b, cur)->Ok_0);
            }
            match children_start(b, cur) {
                Err(f) => {},
                Ok(c) => {
                    lemma_subtree_end_bounds(b, c, depth + 1);
                },
            }
        },
        Ok(FdtToken::EndNode) => {
            if depth != 0 {
                lemma_subtree_end_bounds(b, cur + 4, (depth - 1) as nat);
            }
        },
        Ok(FdtToken::Nop) => {
            lemma_subtree_end_bounds(b, cur + 4, depth);
        },
        Ok(_) => {},
    }
}

/// What `node_end` is, unfolded.
pub proof fn lemma_node_end_unfold(b: Seq<u8>, off: int)
    ensures
        node_end(b, off) == match children_start(b, off) {
            Err(f) => Err::<int, Fault>(f),
            Ok(c) => subtree_end(b, c, 0),
        },
{
    reveal(node_end);
}

/// What `subtree_end` is, one step unfolded.
pub proof fn lemma_subtree_end_unfold(b: Seq<u8>, cur: int, depth: nat)
    requires
        0 <= cur,
    ensures
        subtree_end(b, cur, depth) == match token_at(b, cur) {
            Err(f) => Err::<int, Fault>(f),
            Ok(FdtToken::BeginNode) => match children_start(b, cur) {
                Err(f) => Err(f),
                Ok(c) => subtree_end(b, c, depth + 1),
            },
            Ok(FdtToken::EndNode) => if depth == 0 {
                Ok(cur + 4)
            } else {
                subtree_end(b, cur + 4, (depth - 1) as nat)
            },
            Ok(FdtToken::Nop) => subtree_end(b, cur + 4, depth),
            Ok(FdtToken::Prop) => Err(Fault { kind: FdtErrorKind::BadToken(FDT_PROP), offset: cur }),
            Ok(FdtToken::End) => Err(Fault { kind: FdtErrorKind::BadToken(FDT_END), offset: cur }),
        },
{
    reveal_with_fuel(subtree_end, 2);
}

/// A scan that stands at a node goes on among its children, one level
/// deeper.
pub proof fn lemma_subtree_end_at_node(b: Seq<u8>, cur: int, depth: nat)
    requires
        0 <= cur,
        token_at(b, cur) == Ok::<FdtToken, Fault>(FdtToken::BeginNode),
        children_start(b, cur) is Ok,
    ensures
        subtree_end(b, cur, depth) == subtree_end(
            b,
            children_start(b, cur)->Ok_0,
            depth + 1,
        ),
{
    reveal_with_fuel(subtree_end, 2);
}

/// A scan that stands at a closing token ends after it, or goes on one
/// level higher.
pub proof fn lemma_subtree_end_at_close(b: Seq<u8>, cur: int, depth: nat)
    requires
        0 <= cur,
        token_at(b, cur) == Ok::<FdtToken, Fault>(FdtToken::EndNode),
    ensures
        subtree_end(b, cur, depth) == if depth == 0 {
            Ok::<int, Fault>(cur + 4)
        } else {
            subtree_end(b, cur + 4, (depth - 1) as nat)
        },
{
    reveal_with_fuel(subtree_end, 2);
}

/// A node ends after it starts, inside the blob.
pub proof fn lemma_node_end_bounds(b: Seq<u8>, off: int)
    requires
        0 <= off,
        off + 4 <= b.len(),
    ensures
        node_end(b, off) matches Ok(e) ==> off + 9 <= e <= b.len(),
{
    reveal(node_end);
    lemma_body_start_bounds(b, off);
    if body_start(b, off) is Ok {
        let c = body_start(b, off)->Ok_0;
        lemma_skip_props_bounds(b, c);
        if skip_props(b, c) is Ok {
            lemma_subtree_end_bounds(b, skip_props(b, c)->Ok_0, 0);
        }
    }
}

/// The memory reservations that stand at `off` and after: pairs of address
/// and size, up to the pair of zeros or to the place where no whole pair
/// is left.
pub open spec fn reservations_from(b: Seq<u8>, off: int) -> Seq<(u64, u64)>
    decreases b.len() - off,
{
    if off < 0 || off + 16 > b.len() {
        Seq::empty()
    } else if be_u64(b, off) == 0 && be_u64(b, off + 8) == 0 {
        Seq::empty()
    } else {
        seq![(be_u64(b, off), be_u64(b, off + 8))] + reservations_from(b, off + 16)
    }
}

/// The offset of the root node: the start of the structure block, where a
/// `BeginNode` token has to stand.
pub open spec fn root_offset(b: Seq<u8>) -> Result<int, Fault> {
    let off = hdr_off_dt_struct(b) as int;
    match token_at(b, off) {
        Err(f) => Err(f),
        Ok(FdtToken::BeginNode) => Ok(off),
        Ok(_) => Err(Fault { kind: FdtErrorKind::BadToken(FDT_BEGIN_NODE), offset: off }),
    }
}

/// Whether the name of the node at `off` can be read and is encoded by the
/// bytes `name`.
pub open spec fn name_matches(b: Seq<u8>, off: int, name: Seq<u8>) -> bool {
    match node_name(b, off) {
        Ok(n) => encode_utf8(n) == name,
        Err(_) => false,
    }
}

/// The first of the children `items` whose name can be read and is encoded
/// by the bytes `name`. Items that are errors, and children whose names
/// cannot be read, match nothing.
pub open spec fn lookup_child(b: Seq<u8>, items: Seq<Result<int, Fault>>, name: Seq<u8>) -> Option<
    int,
>
    decreases items.len(),
{
    if items.len() == 0 {
        None
    } else if items[0] is Ok && name_matches(b, items[0]->Ok_0, name) {
        Some(items[0]->Ok_0)
    } else {
        lookup_child(b, items.skip(1), name)
    }
}

/// The node reached from the node at `off` by going down along `names`,
/// each time to the first child of that name; nothing where a name has no
/// such child.
pub open spec fn descend(b: Seq<u8>, off: int, names: Seq<Seq<u8>>) -> Option<int>
    decreases names.len(),
{
    if names.len() == 0 {
        Some(off)
    } else {
        match lookup_child(b, node_children(b, off), names[0]) {
            None => None,
            Some(c) => descend(b, c, names.skip(1)),
        }
    }
}

/// The node that the path `path` names: nothing for a path that does not
/// start with a separator or that leads nowhere, the root's error where the
/// root cannot be read.
pub open spec fn locate(b: Seq<u8>, path: Seq<u8>) -> Option<Result<int, Fault>> {
    if !is_absolute(path) {
        None
    } else {
        match root_offset(b) {
            Err(f) => Some(Err(f)),
            Ok(root) => match descend(b, root, segments_from(path, 0)) {
                None => None,
                Some(off) => Some(Ok(off)),
            },
        }
    }
}

/// A flattened device tree: a blob whose header has been checked.
#[derive(Debug, Clone, Copy)]
pub struct Fdt<'a> {
    data: &'a [u8],
}

impl<'a> View for Fdt<'a> {
    type V = Seq<u8>;

    closed spec fn view(&self) -> Seq<u8> {
        self.data@
    }
}

impl<'a> Fdt<'a> {
    #[verifier::type_invariant]
    spec fn header_checked(self) -> bool {
        header_fault(self.data@) is None
    }

    /// Creates a new `Fdt` from the given byte slice.
    ///
    /// # Errors
    ///
    /// Returns an [`FdtErrorKind::InvalidLength`] if `data` is too short to
    /// contain a valid FDT header or if the `totalsize` field in the header
    /// does not match the length of `data`.
    ///
    /// Returns an [`FdtErrorKind::InvalidMagic`] if the `magic` field in the
    /// header is not `0xd00dfeed`.
    ///
    /// Returns an [`FdtErrorKind::UnsupportedVersion`] if the `version` field
    /// in the header is not supported by this library.
    ///
    /// Returns an [`FdtErrorKind::InvalidHeader`] if the header fails to pass
    /// the header integrity checks.
    pub fn new(data: &'a [u8]) -> (r: Result<Self, FdtError>)
        ensures
            match r {
                Ok(fdt) => header_fault(data@) is None && fdt@ == data@,
                Err(e) => header_fault(data@) == Some(e@),
            },
    {
        if data.len() < FDT_HEADER_SIZE {
            return Err(FdtError::new(FdtErrorKind::InvalidLength, 0));
        }
        let magic = read_be_u32(data, 0).unwrap();
        if magic != FDT_MAGIC {
            return Err(FdtError::new(FdtErrorKind::InvalidMagic, 0));
        }
        let version = read_be_u32(data, 20).unwrap();
        let last_comp_version = read_be_u32(data, 24).unwrap();
        if !(last_comp_version <= FDT_VERSION && FDT_VERSION <= version) {
            return Err(FdtError::new(FdtErrorKind::UnsupportedVersion(version), 20));
        }
        let totalsize = read_be_u32(data, 4).unwrap();
        if totalsize as u64 != data.len() as u64 {
            return Err(FdtError::new(FdtErrorKind::InvalidLength, 4));
        }
        match Self::validate_header(data) {
            Ok(()) => Ok(Fdt { data }),
            Err(e) => Err(e),
        }
    }

    /// Checks the header's offsets and sizes against each other and against
    /// the length of the blob.
    pub(crate) fn validate_header(data: &[u8]) -> (r: Result<(), FdtError>)
        requires
            data@.len() >= 40,
        ensures
            match r {
                Ok(()) => layout_fault(data@) is None,
                Err(e) => layout_fault(data@) == Some(e@),
            },
    {
        let len = data.len() as u64;
        let off_mem_rsvmap = read_be_u32(data, 16).unwrap() as u64;
        let off_dt_struct = read_be_u32(data, 8).unwrap() as u64;
        let off_dt_strings = read_be_u32(data, 12).unwrap() as u64;
        if off_mem_rsvmap > off_dt_struct {
            return Err(
                FdtError::new(FdtErrorKind::InvalidHeader("dt_struct not after memrsvmap"), 16),
            );
        }
        if off_dt_struct > len {
            return Err(
                FdtError::new(FdtErrorKind::InvalidHeader("struct offset out of bounds"), 8),
            );
        }
        if off_dt_strings > len {
            return Err(
                FdtError::new(FdtErrorKind::InvalidHeader("strings offset out of bounds"), 12),
            );
        }
        let size_dt_struct = read_be_u32(data, 36).unwrap() as u64;
        let size_dt_strings = read_be_u32(data, 32).unwrap() as u64;
        if off_dt_struct + size_dt_struct > len {
            return Err(FdtError::new(FdtErrorKind::InvalidHeader("struct block overflows"), 36));
        }
        if off_dt_strings + size_dt_strings > len {
            return Err(FdtError::new(FdtErrorKind::InvalidHeader("strings block overflows"), 32));
        }
        if off_dt_struct + size_dt_struct > off_dt_strings {
            return Err(
                FdtError::new(
                    FdtErrorKind::InvalidHeader("strings block not after struct block"),
                    12,
                ),
            );
        }
        Ok(())
    }

    /// Returns the header of the device tree.
    pub fn header(&self) -> (h: FdtHeader)
        ensures
            h == header_of(self@),
    {
        proof {
            use_type_invariant(self);
        }
        FdtHeader {
            magic: read_be_u32(self.data, 0).unwrap(),
            totalsize: read_be_u32(self.data, 4).unwrap(),
            off_dt_struct: read_be_u32(self.data, 8).unwrap(),
            off_dt_strings: read_be_u32(self.data, 12).unwrap(),
            off_mem_rsvmap: read_be_u32(self.data, 16).unwrap(),
            version: read_be_u32(self.data, 20).unwrap(),
            last_comp_version: read_be_u32(self.data, 24).unwrap(),
            boot_cpuid_phys: read_be_u32(self.data, 28).unwrap(),
            size_dt_strings: read_be_u32(self.data, 32).unwrap(),
            size_dt_struct: read_be_u32(self.data, 36).unwrap(),
        }
    }

    /// Returns the underlying data slice of the FDT. Its header has passed
    /// the checks of [`Fdt::new`].
    #[must_use]
    pub fn data(&self) -> (d: &'a [u8])
        ensures
            d@ == self@,
            header_fault(self@) is None,
    {
        proof {
            use_type_invariant(self);
        }
        self.data
    }

    /// Returns the version of the FDT.
    #[must_use]
    pub fn version(&self) -> (v: u32)
        ensures
            v == hdr_version(self@),
    {
        proof {
            use_type_invariant(self);
        }
        read_be_u32(self.data, 20).unwrap()
    }

    /// Returns the last compatible version of the FDT.
    #[must_use]
    pub fn last_comp_version(&self) -> (v: u32)
        ensures
            v == hdr_last_comp_version(self@),
    {
        proof {
            use_type_invariant(self);
        }
        read_be_u32(self.data, 24).unwrap()
    }

    /// Returns the physical ID of the boot CPU.
    #[must_use]
    pub fn boot_cpuid_phys(&self) -> (v: u32)
        ensures
            v == hdr_boot_cpuid_phys(self@),
    {
        proof {
            use_type_invariant(self);
        }
        read_be_u32(self.data, 28).unwrap()
    }

    /// Returns an iterator over the memory reservation block: over every
    /// pair of address and size before the pair of zeros that ends it.
    pub fn memory_reservations(&self) -> (it: FdtReservationIter<'a>)
        ensures
            it.remaining() == reservations_from(self@, hdr_off_mem_rsvmap(self@) as int),
    {
        proof {
            use_type_invariant(self);
        }
        let offset = read_be_u32(self.data, 16).unwrap() as usize;
        FdtReservationIter { fdt: *self, offset }
    }

    /// Returns the root node of the device tree.
    ///
    /// # Errors
    ///
    /// Returns an [`FdtErrorKind::InvalidLength`] if the FDT structure is
    /// truncated or an [`FdtErrorKind::BadToken`] if the first token is not
    /// `FDT_BEGIN_NODE`.
    pub fn root(&self) -> (r: Result<FdtNode<'a>, FdtError>)
        ensures
            child_item(r) == root_offset(self@),
            r matches Ok(n) ==> n.blob() == self@,
    {
        proof {
            use_type_invariant(self);
        }
        let offset = read_be_u32(self.data, 8).unwrap() as usize;
        match self.read_token(offset) {
            Err(e) => Err(e),
            Ok(FdtToken::BeginNode) => Ok(FdtNode::at(*self, offset)),
            Ok(_) => Err(FdtError::new(FdtErrorKind::BadToken(FDT_BEGIN_NODE), offset)),
        }
    }

    /// Finds a node by its path.
    ///
    /// The path has to start with `/`; `/` alone names the root. Names are
    /// separated by `/`, and empty names are passed over, so that `//a//b`
    /// names what `/a/b` names.
    ///
    /// # Performance
    ///
    /// This method traverses the device tree and its performance is linear
    /// in the number of nodes that it visits.
    #[must_use]
    pub fn find_node(&self, path: &str) -> (r: Option<Result<FdtNode<'a>, FdtError>>)
        ensures
            match r {
                None => locate(self@, encode_utf8(path@)) is None,
                Some(item) => locate(self@, encode_utf8(path@)) == Some(child_item(item)),
            },
            r matches Some(Ok(n)) ==> n.blob() == self@,
    {
        let bytes = path.as_bytes();
        if bytes.len() == 0 || bytes[0] != crate::path::SEPARATOR {
            return None;
        }
        match self.root() {
            Err(e) => Some(Err(e)),
            Ok(root) => match Self::descend_path(root, bytes) {
                None => None,
                Some(node) => Some(Ok(node)),
            },
        }
    }

    /// Goes down from `node` along the names of `path`.
    pub(crate) fn descend_path(node: FdtNode<'a>, path: &[u8]) -> (r: Option<FdtNode<'a>>)
        ensures
            match r {
                Some(n) => n.blob() == node.blob() && descend(
                    node.blob(),
                    node.spec_offset(),
                    segments_from(path@, 0),
                ) == Some(n.spec_offset()),
                None => descend(node.blob(), node.spec_offset(), segments_from(path@, 0)) is None,
            },
    {
        let ghost b = node.blob();
        let ghost goal = descend(b, node.spec_offset(), segments_from(path@, 0));
        let mut current_node = node;
        let mut at: usize = 0;
        loop
            invariant
                at <= path@.len(),
                b == node.blob(),
                current_node.blob() == b,
                goal == descend(b, node.spec_offset(), segments_from(path@, 0)),
                descend(b, current_node.spec_offset(), segments_from(path@, at as int)) == goal,
            decreases path@.len() - at,
        {
            match next_segment(path, at) {
                None => {
                    return Some(current_node);
                },
                Some((start, end)) => {
                    let name = slice_subrange(path, start, end);
                    proof {
                        let rest = segments_from(path@, end as int);
                        assert((seq![name@] + rest).skip(1) =~= rest);
                        assert((seq![name@] + rest)[0] == name@);
                    }
                    match Self::lookup(&current_node, name) {
                        None => {
                            return None;
                        },
                        Some(child) => {
                            current_node = child;
                            at = end;
                        },
                    }
                },
            }
        }
    }

    /// Whether the name of `node` can be read and is encoded by `name`.
    pub(crate) fn is_named(node: &FdtNode<'a>, name: &[u8]) -> (r: bool)
        ensures
            r == name_matches(node.blob(), node.spec_offset(), name@),
    {
        match node.name() {
            Err(_) => false,
            Ok(n) => {
                proof {
                    crate::bytes::lemma_decode_of_bytes(n);
                }
                bytes_eq(n.as_bytes(), name)
            },
        }
    }

    /// The first child of `node` whose name is encoded by `name`.
    pub(crate) fn lookup(node: &FdtNode<'a>, name: &[u8]) -> (r: Option<FdtNode<'a>>)
        ensures
            match r {
                Some(c) => c.blob() == node.blob() && lookup_child(
                    node.blob(),
                    node_children(node.blob(), node.spec_offset()),
                    name@,
                ) == Some(c.spec_offset()),
                None => lookup_child(
                    node.blob(),
                    node_children(node.blob(), node.spec_offset()),
                    name@,
                ) is None,
            },
    {
        let mut it = node.children();
        loop
            invariant
                it.blob() == node.blob(),
                lookup_child(node.blob(), it.remaining(), name@) == lookup_child(
                    node.blob(),
                    node_children(node.blob(), node.spec_offset()),
                    name@,
                ),
            decreases it.remaining().len(),
        {
            match it.next() {
                None => {
                    return None;
                },
                Some(Err(_)) => {},
                Some(Ok(child)) => {
                    if Self::is_named(&child, name) {
                        return Some(child);
                    }
                },
            }
        }
    }

    /// Reads the token at `offset`.
    pub(crate) fn read_token(&self, offset: usize) -> (r: Result<FdtToken, FdtError>)
        requires
            offset <= self@.len(),
        ensures
            outcome(r) == token_at(self@, offset as int),
    {
        match read_be_u32(self.data, offset) {
            None => Err(FdtError::new(FdtErrorKind::InvalidLength, offset)),
            Some(val) => match FdtToken::try_from(val) {
                Ok(t) => Ok(t),
                Err(v) => Err(FdtError::new(FdtErrorKind::BadToken(v), offset)),
            },
        }
    }

    /// Return a NUL-terminated string from a given offset: one that ends
    /// before `end`, or before the end of the blob where no `end` is given.
    pub(crate) fn string_at_offset(&self, offset: usize, end: Option<usize>) -> (r: Result<
        &'a str,
        FdtError,
    >)
        requires
            offset <= self@.len(),
            end matches Some(e) ==> offset <= e <= self@.len(),
        ensures
            match r {
                Ok(s) => cstring_in(self@, offset as int, spec_end(self@, end)) == Ok::<
                    Seq<char>,
                    Fault,
                >(s@),
                Err(e) => cstring_in(self@, offset as int, spec_end(self@, end)) == Err::<
                    Seq<char>,
                    Fault,
                >(e@),
            },
    {
        let end: usize = match end {
            Some(e) => e,
            None => self.data.len(),
        };
        let head = slice_subrange(self.data, 0, end);
        match find_nul(head, offset) {
            None => Err(FdtError::new(FdtErrorKind::InvalidString, offset)),
            Some(n) => {
                proof {
                    lemma_first_nul(self.data@.subrange(0, end as int), offset as int);
                }
                let bytes = slice_subrange(self.data, offset, n);
                match str_from_utf8(bytes) {
                    None => Err(FdtError::new(FdtErrorKind::InvalidString, offset)),
                    Some(s) => {
                        proof {
                            crate::bytes::lemma_decode_of_bytes(s);
                        }
                        Ok(s)
                    },
                }
            },
        }
    }

    /// Return a string from the string block.
    pub(crate) fn string(&self, string_block_offset: usize) -> (r: Result<&'a str, FdtError>)
        ensures
            match r {
                Ok(s) => strings_entry(self@, string_block_offset as int) == Ok::<
                    Seq<char>,
                    Fault,
                >(s@),
                Err(e) => strings_entry(self@, string_block_offset as int) == Err::<
                    Seq<char>,
                    Fault,
                >(e@),
            },
    {
        proof {
            use_type_invariant(self);
        }
        let str_block_start = read_be_u32(self.data, 12).unwrap() as usize;
        let str_block_size = read_be_u32(self.data, 32).unwrap() as usize;
        let str_block_end = str_block_start + str_block_size;
        if string_block_offset >= str_block_size {
            let at = if string_block_offset > usize::MAX - str_block_start {
                usize::MAX
            } else {
                str_block_start + string_block_offset
            };
            return Err(FdtError::new(FdtErrorKind::InvalidLength, at));
        }
        self.string_at_offset(str_block_start + string_block_offset, Some(str_block_end))
    }

    /// The offset after the terminator of the string that starts at
    /// `start`.
    pub(crate) fn find_string_end(&self, start: usize) -> (r: Result<usize, FdtError>)
        requires
            start <= self@.len(),
        ensures
            match r {
                Ok(e) => e == first_nul(self@, start as int) + 1 && e <= self@.len(),
                Err(e) => first_nul(self@, start as int) >= self@.len() && e@ == (Fault {
                    kind: FdtErrorKind::InvalidString,
                    offset: start as int,
                }),
            },
    {
        let len = self.data.len();
        match find_nul(self.data, start) {
            Some(i) => Ok(i + 1),
            None => Err(FdtError::new(FdtErrorKind::InvalidString, start)),
        }
    }

    /// Rounds `offset` up to the alignment of tokens, without leaving the
    /// blob.
    pub(crate) fn align_tag_offset(&self, offset: usize) -> (r: usize)
        requires
            offset <= self@.len(),
        ensures
            r == align4_within(offset as int, self@.len() as int),
            offset <= r <= self@.len(),
    {
        align_within(offset, self.data.len())
    }

    /// Where the body of the node at `offset` starts.
    pub(crate) fn body_offset(&self, offset: usize) -> (r: Result<usize, FdtError>)
        requires
            offset + 4 <= self@.len(),
        ensures
            offsets(r) == body_start(self@, offset as int),
            r matches Ok(c) ==> offset + 5 <= c <= self@.len(),
    {
        proof {
            lemma_body_start_bounds(self@, offset as int);
        }
        let len = self.data.len();
        match self.find_string_end(offset + FDT_TAGSIZE) {
            Err(e) => Err(e),
            Ok(end) => Ok(self.align_tag_offset(end)),
        }
    }

    /// Where reading goes on after a property, given the offset after its
    /// `Prop` token.
    pub(crate) fn next_property_offset(&self, offset: usize) -> (r: Result<usize, FdtError>)
        requires
            4 <= offset <= self@.len(),
        ensures
            offsets(r) == prop_extent(self@, offset - 4),
            r matches Ok(c) ==> offset + 8 <= c <= self@.len(),
    {
        let len = self.data.len();
        if len - offset < 8 {
            return Err(FdtError::new(FdtErrorKind::InvalidLength, offset - FDT_TAGSIZE));
        }
        let value_len = read_be_u32(self.data, offset).unwrap() as usize;
        let value_offset = offset + 2 * FDT_TAGSIZE;
        if len - value_offset < value_len {
            return Err(FdtError::new(FdtErrorKind::InvalidLength, value_offset));
        }
        Ok(self.align_tag_offset(value_offset + value_len))
    }

    /// The first place at or after `offset` that holds neither a property
    /// nor a `Nop`.
    pub(crate) fn skip_properties(&self, offset: usize) -> (r: Result<usize, FdtError>)
        requires
            offset <= self@.len(),
        ensures
            offsets(r) == skip_props(self@, offset as int),
            r matches Ok(c) ==> offset <= c && c + 4 <= self@.len(),
    {
        let len = self.data.len();
        let mut cur = offset;
        loop
            invariant
                len == self@.len(),
                offset <= cur <= len,
                skip_props(self@, cur as int) == skip_props(self@, offset as int),
            decreases len - cur,
        {
            proof {
                lemma_skip_props_unfold(self@, cur as int);
                lemma_skip_props_bounds(self@, cur as int);
            }
            match self.read_token(cur) {
                Err(e) => {
                    return Err(e);
                },
                Ok(FdtToken::Prop) => {
                    match self.next_property_offset(cur + FDT_TAGSIZE) {
                        Err(e) => {
                            return Err(e);
                        },
                        Ok(next) => {
                            cur = next;
                        },
                    }
                },
                Ok(FdtToken::Nop) => {
                    cur = cur + FDT_TAGSIZE;
                },
                Ok(_) => {
                    return Ok(cur);
                },
            }
        }
    }

    /// Where the children of the node at `offset` start.
    pub(crate) fn children_offset(&self, offset: usize) -> (r: Result<usize, FdtError>)
        requires
            offset + 4 <= self@.len(),
        ensures
            offsets(r) == children_start(self@, offset as int),
            r matches Ok(c) ==> offset + 5 <= c && c + 4 <= self@.len(),
    {
        match self.body_offset(offset) {
            Err(e) => Err(e),
            Ok(c) => self.skip_properties(c),
        }
    }

    /// Where the node at `offset` ends, which is where its next sibling
    /// would start. The nesting is counted, not recursed into.
    pub(crate) fn next_sibling_offset(&self, offset: usize) -> (r: Result<usize, FdtError>)
        requires
            offset + 4 <= self@.len(),
        ensures
            offsets(r) == node_end(self@, offset as int),
            r matches Ok(e) ==> offset + 9 <= e <= self@.len(),
    {
        proof {
            lemma_node_end_unfold(self@, offset as int);
            lemma_node_end_bounds(self@, offset as int);
        }
        let mut cur = match self.children_offset(offset) {
            Err(e) => {
                return Err(e);
            },
            Ok(c) => c,
        };
        let len = self.data.len();
        let mut depth: usize = 0;
        loop
            invariant
                len == self@.len(),
                offset + 4 <= cur <= len,
                depth <= cur,
                subtree_end(self@, cur as int, depth as nat) == node_end(self@, offset as int),
                node_end(self@, offset as int) matches Ok(e) ==> offset + 9 <= e <= len,
            decreases len - cur,
        {
            proof {
                lemma_subtree_end_unfold(self@, cur as int, depth as nat);
            }
            match self.read_token(cur) {
                Err(e) => {
                    return Err(e);
                },
                Ok(FdtToken::BeginNode) => {
                    match self.children_offset(cur) {
                        Err(e) => {
                            return Err(e);
                        },
                        Ok(c) => {
                            depth = depth + 1;
                            cur = c;
                        },
                    }
                },
                Ok(FdtToken::EndNode) => {
                    if depth == 0 {
                        return Ok(cur + FDT_TAGSIZE);
                    }
                    depth = depth - 1;
                    cur = cur + FDT_TAGSIZE;
                },
                Ok(FdtToken::Nop) => {
                    cur = cur + FDT_TAGSIZE;
                },
                Ok(FdtToken::Prop) => {
                    return Err(FdtError::new(FdtErrorKind::BadToken(FDT_PROP), cur));
                },
                Ok(FdtToken::End) => {
                    return Err(FdtError::new(FdtErrorKind::BadToken(FDT_END), cur));
                },
            }
        }
    }
}

/// An iterator over the memory reservations of a blob.
pub struct FdtReservationIter<'a> {
    fdt: Fdt<'a>,
    offset: usize,
}

impl<'a> FdtReservationIter<'a> {
    #[verifier::type_invariant]
    spec fn inside_blob(self) -> bool {
        self.offset <= self.fdt@.len()
    }

    /// The reservations that are still to come, as pairs of address and
    /// size.
    pub closed spec fn remaining(&self) -> Seq<(u64, u64)> {
        reservations_from(self.fdt@, self.offset as int)
    }

    /// Yields the next reservation, or nothing at the pair of zeros and
    /// where no whole pair is left.
    pub fn next(&mut self) -> (r: Option<MemoryReservation>)
        ensures
            match r {
                Some(m) => old(self).remaining().len() > 0 && m@ == old(self).remaining()[0]
                    && final(self).remaining() == old(self).remaining().skip(1),
                None => old(self).remaining().len() == 0 && final(self).remaining().len() == 0,
            },
    {
        proof {
            use_type_invariant(&*self);
        }
        let data = self.fdt.data();
        let len = data.len();
        if len - self.offset < 16 {
            return None;
        }
        let address = read_be_u64(data, self.offset).unwrap();
        let size = read_be_u64(data, self.offset + 8).unwrap();
        if address == 0 && size == 0 {
            return None;
        }
        proof {
            let rest = reservations_from(self.fdt@, self.offset + 16);
            assert((seq![(address, size)] + rest).skip(1) =~= rest);
        }
        self.offset = self.offset + 16;
        Some(MemoryReservation::new(address, size))
    }
}

/// The end that a string search is given: `end`, or the end of the blob.
pub open spec fn spec_end(b: Seq<u8>, end: Option<usize>) -> int {
    match end {
        Some(e) => e as int,
        None => b.len() as int,
    }
}

/// A result that holds an offset, as a mathematical value.
pub open spec fn offsets(r: Result<usize, FdtError>) -> Result<int, Fault> {
    match r {
        Ok(v) => Ok(v as int),
        Err(e) => Err(e@),
    }
}

/// The part of `data` from `from` up to `to`.
pub(crate) fn slice_subrange<'a>(data: &'a [u8], from: usize, to: usize) -> (r: &'a [u8])
    requires
        from <= to <= data@.len(),
    ensures
        r@ == data@.subrange(from as int, to as int),
{
    &data[from..to]
}

} // verus!
