//! A read-only API for inspecting a device tree property.

use super::{prop_extent, slice_subrange, strings_entry, token_at, Fdt, FdtToken, FDT_TAGSIZE};
use crate::bytes::{
    be_u32, be_u64, find_nul, first_nul, lemma_decode_of_bytes, lemma_first_nul, read_be_u32,
    read_be_u64, str_from_utf8,
};
use crate::error::{Fault, FdtError, FdtErrorKind};
use vstd::prelude::*;
use vstd::utf8::{decode_utf8, valid_utf8};

verus! {

/// What a property of a blob holds: its name, its value, and the offset in
/// the blob at which the value stands.
pub ghost struct RawProperty {
    pub name: Seq<char>,
    pub value: Seq<u8>,
    pub value_offset: int,
}

/// The property whose `Prop` token is at `cur`, and the place where reading
/// goes on after it. The value has to lie inside the blob, and the name
/// inside the strings block.
pub open spec fn prop_at(b: Seq<u8>, cur: int) -> Result<(RawProperty, int), Fault> {
    match prop_extent(b, cur) {
        Err(f) => Err(f),
        Ok(next) => match strings_entry(b, be_u32(b, cur + 8) as int) {
            Err(f) => Err(f),
            Ok(name) => Ok(
                (
                    RawProperty {
                        name,
                        value: b.subrange(cur + 12, cur + 12 + be_u32(b, cur + 4)),
                        value_offset: cur + 12,
                    },
                    next,
                ),
            ),
        },
    }
}

/// What iterating over properties yields from `cur` on: each property up to
/// the first token that is neither `Prop` nor `Nop`, or up to the first
/// error, which is the last item.
#[verifier::opaque]
pub open spec fn props_from(b: Seq<u8>, cur: int) -> Seq<Result<RawProperty, Fault>>
    decreases b.len() - cur,
{
    match token_at(b, cur) {
        Err(f) => seq![Err(f)],
        Ok(FdtToken::Prop) => match prop_at(b, cur) {
            Err(f) => seq![Err(f)],
            Ok((p, next)) => seq![Ok(p)] + props_from(b, next),
        },
        Ok(FdtToken::Nop) => props_from(b, cur + 4),
        Ok(_) => Seq::empty(),
    }
}

/// What `props_from` is, one step unfolded.
pub proof fn lemma_props_from_unfold(b: Seq<u8>, cur: int)
    ensures
        props_from(b, cur) == match token_at(b, cur) {
            Err(f) => seq![Err::<RawProperty, Fault>(f)],
            Ok(FdtToken::Prop) => match prop_at(b, cur) {
                Err(f) => seq![Err(f)],
                Ok((p, next)) => seq![Ok(p)] + props_from(b, next),
            },
            Ok(FdtToken::Nop) => props_from(b, cur + 4),
            Ok(_) => Seq::empty(),
        },
{
    reveal_with_fuel(props_from, 2);
}

/// What iterating over the properties of the node at `off` yields.
#[verifier::opaque]
pub open spec fn node_props(b: Seq<u8>, off: int) -> Seq<Result<RawProperty, Fault>> {
    match super::body_start(b, off) {
        Err(f) => seq![Err(f)],
        Ok(c) => props_from(b, c),
    }
}

/// The value `v` as a 32-bit integer: it has to be four bytes long.
pub open spec fn value_as_u32(v: Seq<u8>, at: int) -> Result<u32, Fault> {
    if v.len() == 4 {
        Ok(be_u32(v, 0))
    } else {
        Err(Fault { kind: FdtErrorKind::InvalidLength, offset: at })
    }
}

/// The value `v` as a 64-bit integer: it has to be eight bytes long.
pub open spec fn value_as_u64(v: Seq<u8>, at: int) -> Result<u64, Fault> {
    if v.len() == 8 {
        Ok(be_u64(v, 0))
    } else {
        Err(Fault { kind: FdtErrorKind::InvalidLength, offset: at })
    }
}

/// The value `v` as one string: UTF-8 text followed by a zero byte, with no
/// zero byte before that one.
pub open spec fn value_as_str(v: Seq<u8>, at: int) -> Result<Seq<char>, Fault> {
    if v.len() > 0 && first_nul(v, 0) == v.len() - 1 && valid_utf8(v.subrange(0, v.len() - 1)) {
        Ok(decode_utf8(v.subrange(0, v.len() - 1)))
    } else {
        Err(Fault { kind: FdtErrorKind::InvalidString, offset: at })
    }
}

/// The value `v` as a list of strings: the NUL-terminated strings that it
/// starts with, up to its end or to the first place where no such string
/// stands.
pub open spec fn value_as_str_list(v: Seq<u8>) -> Seq<Seq<char>>
    decreases v.len(),
{
    let n = first_nul(v, 0);
    if v.len() == 0 || n >= v.len() || !valid_utf8(v.subrange(0, n)) {
        Seq::empty()
    } else {
        proof {
            lemma_first_nul(v, 0);
        }
        seq![decode_utf8(v.subrange(0, n))] + value_as_str_list(v.subrange(n + 1, v.len() as int))
    }
}

/// A property of a device tree node.
#[derive(Debug, PartialEq)]
pub struct FdtProperty<'a> {
    name: &'a str,
    value: &'a [u8],
    value_offset: usize,
}

impl<'a> View for FdtProperty<'a> {
    type V = RawProperty;

    closed spec fn view(&self) -> RawProperty {
        RawProperty {
            name: self.name@,
            value: self.value@,
            value_offset: self.value_offset as int,
        }
    }
}

/// An item of an iteration over properties, as a mathematical value.
pub open spec fn prop_item(r: Result<FdtProperty<'_>, FdtError>) -> Result<RawProperty, Fault> {
    match r {
        Ok(p) => Ok(p@),
        Err(e) => Err(e@),
    }
}

impl<'a> FdtProperty<'a> {
    /// Returns the name of this property.
    #[must_use]
    pub fn name(&self) -> (n: &'a str)
        ensures
            n@ == self@.name,
    {
        self.name
    }

    /// Returns the value of this property.
    #[must_use]
    pub fn value(&self) -> (v: &'a [u8])
        ensures
            v@ == self@.value,
    {
        self.value
    }

    /// Returns the value of this property as a `u32`.
    ///
    /// # Errors
    ///
    /// Returns an [`FdtErrorKind::InvalidLength`] if the property's value is
    /// not 4 bytes long.
    pub fn as_u32(&self) -> (r: Result<u32, FdtError>)
        ensures
            crate::error::outcome(r) == value_as_u32(self@.value, self@.value_offset),
    {
        if self.value.len() != 4 {
            return Err(FdtError::new(FdtErrorKind::InvalidLength, self.value_offset));
        }
        Ok(read_be_u32(self.value, 0).unwrap())
    }

    /// Returns the value of this property as a `u64`.
    ///
    /// # Errors
    ///
    /// Returns an [`FdtErrorKind::InvalidLength`] if the property's value is
    /// not 8 bytes long.
    pub fn as_u64(&self) -> (r: Result<u64, FdtError>)
        ensures
            crate::error::outcome(r) == value_as_u64(self@.value, self@.value_offset),
    {
        if self.value.len() != 8 {
            return Err(FdtError::new(FdtErrorKind::InvalidLength, self.value_offset));
        }
        Ok(read_be_u64(self.value, 0).unwrap())
    }

    /// Returns the value of this property as a string.
    ///
    /// # Errors
    ///
    /// Returns an [`FdtErrorKind::InvalidString`] if the property's value is
    /// not a null-terminated string or contains invalid UTF-8.
    pub fn as_str(&self) -> (r: Result<&'a str, FdtError>)
        ensures
            match r {
                Ok(s) => value_as_str(self@.value, self@.value_offset) == Ok::<Seq<char>, Fault>(
                    s@,
                ),
                Err(e) => value_as_str(self@.value, self@.value_offset) == Err::<Seq<char>, Fault>(
                    e@,
                ),
            },
    {
        let len = self.value.len();
        match find_nul(self.value, 0) {
            None => Err(FdtError::new(FdtErrorKind::InvalidString, self.value_offset)),
            Some(n) => {
                if n != len - 1 {
                    return Err(FdtError::new(FdtErrorKind::InvalidString, self.value_offset));
                }
                match str_from_utf8(slice_subrange(self.value, 0, n)) {
                    None => Err(FdtError::new(FdtErrorKind::InvalidString, self.value_offset)),
                    Some(s) => {
                        proof {
                            lemma_decode_of_bytes(s);
                        }
                        Ok(s)
                    },
                }
            },
        }
    }

    /// Returns an iterator over the strings in this property.
    pub fn as_str_list(&self) -> (it: FdtStringListIterator<'a>)
        ensures
            it.remaining() == value_as_str_list(self@.value),
    {
        FdtStringListIterator { value: self.value }
    }
}

/// An iterator over the strings of a property value.
pub struct FdtStringListIterator<'a> {
    value: &'a [u8],
}

impl<'a> FdtStringListIterator<'a> {
    /// The strings that are still to come.
    pub closed spec fn remaining(&self) -> Seq<Seq<char>> {
        value_as_str_list(self.value@)
    }

    /// Yields the next string, if there is one.
    pub fn next(&mut self) -> (r: Option<&'a str>)
        ensures
            match r {
                Some(s) => old(self).remaining().len() > 0 && s@ == old(self).remaining()[0]
                    && final(self).remaining() == old(self).remaining().skip(1),
                None => old(self).remaining().len() == 0 && final(self).remaining().len() == 0,
            },
    {
        let len = self.value.len();
        if len == 0 {
            return None;
        }
        let n = match find_nul(self.value, 0) {
            None => {
                return None;
            },
            Some(n) => n,
        };
        match str_from_utf8(slice_subrange(self.value, 0, n)) {
            None => None,
            Some(s) => {
                proof {
                    lemma_decode_of_bytes(s);
                    let rest = value_as_str_list(self.value@.subrange(n + 1, len as int));
                    assert((seq![s@] + rest).skip(1) =~= rest);
                }
                self.value = slice_subrange(self.value, n + 1, len);
                Some(s)
            },
        }
    }
}

/// Where an iteration over a node stands.
#[derive(Debug, Clone, Copy)]
pub(crate) enum IterState {
    /// At the node's `BeginNode` token, before its name.
    Start(usize),
    /// Inside the node, at a token.
    Running(usize),
    /// After an error: nothing more comes.
    Error,
}

/// An iterator over the properties of a device tree node.
pub struct FdtPropIter<'a> {
    fdt: Fdt<'a>,
    state: IterState,
}

impl<'a> FdtPropIter<'a> {
    #[verifier::type_invariant]
    spec fn inside_blob(self) -> bool {
        match self.state {
            IterState::Start(off) => off + 4 <= self.fdt@.len(),
            IterState::Running(cur) => cur <= self.fdt@.len(),
            IterState::Error => true,
        }
    }

    /// The blob that is iterated over.
    pub closed spec fn blob(&self) -> Seq<u8> {
        self.fdt@
    }

    /// The items that are still to come.
    pub closed spec fn remaining(&self) -> Seq<Result<RawProperty, Fault>> {
        match self.state {
            IterState::Start(off) => node_props(self.fdt@, off as int),
            IterState::Running(cur) => props_from(self.fdt@, cur as int),
            IterState::Error => Seq::empty(),
        }
    }

    /// An iterator over the properties of the node at `offset`.
    pub(crate) fn new(fdt: Fdt<'a>, offset: usize) -> (it: Self)
        requires
            offset + 4 <= fdt@.len(),
        ensures
            it.blob() == fdt@,
            it.remaining() == node_props(fdt@, offset as int),
    {
        FdtPropIter { fdt, state: IterState::Start(offset) }
    }

    /// Yields the next property, or the error that ends the iteration, or
    /// nothing where the iteration has ended.
    pub fn next(&mut self) -> (r: Option<Result<FdtProperty<'a>, FdtError>>)
        ensures
            final(self).blob() == old(self).blob(),
            match r {
                Some(item) => old(self).remaining().len() > 0 && prop_item(item) == old(
                    self,
                ).remaining()[0] && final(self).remaining() == old(self).remaining().skip(1),
                None => old(self).remaining().len() == 0 && final(self).remaining().len() == 0,
            },
    {
        proof {
            use_type_invariant(&*self);
            reveal(node_props);
        }
        let mut cur: usize = match self.state {
            IterState::Start(offset) => match self.fdt.body_offset(offset) {
                Err(e) => {
                    self.state = IterState::Error;
                    assert(seq![Err::<RawProperty, Fault>(e@)].skip(1) =~= Seq::empty());
                    return Some(Err(e));
                },
                Ok(c) => c,
            },
            IterState::Running(c) => c,
            IterState::Error => {
                return None;
            },
        };
        let r = Self::try_next(&self.fdt, &mut cur);
        let failed = match &r {
            Some(Err(_)) => true,
            _ => false,
        };
        if failed {
            self.state = IterState::Error;
        } else {
            self.state = IterState::Running(cur);
        }
        r
    }

    /// Moves `offset` over `Nop` tokens and over at most one property, and
    /// yields that property, or the error met on the way, or nothing where
    /// another token stands.
    pub(crate) fn try_next(fdt: &Fdt<'a>, offset: &mut usize) -> (r: Option<
        Result<FdtProperty<'a>, FdtError>,
    >)
        requires
            *old(offset) <= fdt@.len(),
        ensures
            *final(offset) <= fdt@.len(),
            match r {
                Some(Ok(p)) => props_from(fdt@, *old(offset) as int) == seq![
                    Ok::<RawProperty, Fault>(p@),
                ] + props_from(fdt@, *final(offset) as int),
                Some(Err(e)) => props_from(fdt@, *old(offset) as int) == seq![
                    Err::<RawProperty, Fault>(e@),
                ],
                None => props_from(fdt@, *old(offset) as int).len() == 0 && props_from(
                    fdt@,
                    *final(offset) as int,
                ).len() == 0,
            },
    {
        let data = fdt.data();
        let len = data.len();
        loop
            invariant
                data@ == fdt@,
                len == fdt@.len(),
                *offset <= fdt@.len(),
                props_from(fdt@, *offset as int) == props_from(fdt@, *old(offset) as int),
            decreases fdt@.len() - *offset,
        {
            proof {
                lemma_props_from_unfold(fdt@, *offset as int);
            }
            let token = match fdt.read_token(*offset) {
                Ok(token) => token,
                Err(e) => {
                    return Some(Err(e));
                },
            };
            match token {
                FdtToken::Prop => {
                    let next = match fdt.next_property_offset(*offset + FDT_TAGSIZE) {
                        Ok(next) => next,
                        Err(e) => {
                            return Some(Err(e));
                        },
                    };
                    let len = read_be_u32(data, *offset + FDT_TAGSIZE).unwrap() as usize;
                    let nameoff = read_be_u32(data, *offset + 2 * FDT_TAGSIZE).unwrap() as usize;
                    let prop_offset = *offset + 3 * FDT_TAGSIZE;
                    let name = match fdt.string(nameoff) {
                        Ok(name) => name,
                        Err(e) => {
                            return Some(Err(e));
                        },
                    };
                    let value = slice_subrange(data, prop_offset, prop_offset + len);
                    *offset = next;
                    return Some(Ok(FdtProperty { name, value, value_offset: prop_offset }));
                },
                FdtToken::Nop => {
                    *offset = *offset + FDT_TAGSIZE;
                },
                _ => {
                    return None;
                },
            }
        }
    }
}

} // verus!
