//! A read-only API for inspecting a device tree node.

use super::property::{node_props, FdtPropIter, FdtProperty, IterState, RawProperty};
use super::{
    children_start, lemma_node_end_bounds, node_end, node_name, token_at, Fdt, FdtToken, FDT_END,
    FDT_PROP, FDT_TAGSIZE,
};
use crate::bytes::str_eq;
use crate::error::{Fault, FdtError, FdtErrorKind};
use vstd::prelude::*;

verus! {

/// What iterating over children yields from `cur` on: the offset of each
/// child up to the `EndNode` that closes the parent, or up to the first
/// error, which is the last item. Only `Nop` may stand between children.
#[verifier::opaque]
pub open spec fn children_from(b: Seq<u8>, cur: int) -> Seq<Result<int, Fault>>
    decreases b.len() - cur,
{
    if cur < 0 {
        Seq::empty()
    } else {
        match token_at(b, cur) {
            Err(f) => seq![Err(f)],
            Ok(FdtToken::BeginNode) => match node_end(b, cur) {
                Err(f) => seq![Err(f)],
                Ok(next) => {
                    proof {
                        lemma_node_end_bounds(b, cur);
                    }
                    seq![Ok(cur)] + children_from(b, next)
                },
            },
            Ok(FdtToken::EndNode) => Seq::empty(),
            Ok(FdtToken::Nop) => children_from(b, cur + 4),
            Ok(FdtToken::Prop) => seq![
                Err(Fault { kind: FdtErrorKind::BadToken(FDT_PROP), offset: cur }),
            ],
            Ok(FdtToken::End) => seq![
                Err(Fault { kind: FdtErrorKind::BadToken(FDT_END), offset: cur }),
            ],
        }
    }
}

/// What `children_from` is, one step unfolded.
pub proof fn lemma_children_from_unfold(b: Seq<u8>, cur: int)
    requires
        0 <= cur,
    ensures
        children_from(b, cur) == match token_at(b, cur) {
            Err(f) => seq![Err::<int, Fault>(f)],
            Ok(FdtToken::BeginNode) => match node_end(b, cur) {
                Err(f) => seq![Err(f)],
                Ok(next) => seq![Ok(cur)] + children_from(b, next),
            },
            Ok(FdtToken::EndNode) => Seq::empty(),
            Ok(FdtToken::Nop) => children_from(b, cur + 4),
            Ok(FdtToken::Prop) => seq![
                Err(Fault { kind: FdtErrorKind::BadToken(FDT_PROP), offset: cur }),
            ],
            Ok(FdtToken::End) => seq![
                Err(Fault { kind: FdtErrorKind::BadToken(FDT_END), offset: cur }),
            ],
        },
{
    reveal_with_fuel(children_from, 2);
}

/// What iterating over the children of the node at `off` yields.
#[verifier::opaque]
pub open spec fn node_children(b: Seq<u8>, off: int) -> Seq<Result<int, Fault>> {
    match children_start(b, off) {
        Err(f) => seq![Err(f)],
        Ok(c) => children_from(b, c),
    }
}

/// The first of `items` that is named `name`, nothing where the items end
/// before one is, and the first error where that comes before.
pub open spec fn find_prop(items: Seq<Result<RawProperty, Fault>>, name: Seq<char>) -> Result<
    Option<RawProperty>,
    Fault,
>
    decreases items.len(),
{
    if items.len() == 0 {
        Ok(None)
    } else {
        match items[0] {
            Err(f) => Err(f),
            Ok(p) => if p.name == name {
                Ok(Some(p))
            } else {
                find_prop(items.skip(1), name)
            },
        }
    }
}

/// The first of the children `items` that is named `name`, nothing where
/// the items end before one is, and the first error where that comes
/// before, be it an item or a name that cannot be read.
pub open spec fn find_child(b: Seq<u8>, items: Seq<Result<int, Fault>>, name: Seq<char>) -> Result<
    Option<int>,
    Fault,
>
    decreases items.len(),
{
    if items.len() == 0 {
        Ok(None)
    } else {
        match items[0] {
            Err(f) => Err(f),
            Ok(off) => match node_name(b, off) {
                Err(f) => Err(f),
                Ok(n) => if n == name {
                    Ok(Some(off))
                } else {
                    find_child(b, items.skip(1), name)
                },
            },
        }
    }
}

/// A node in a flattened device tree.
#[derive(Clone, Copy)]
pub struct FdtNode<'a> {
    fdt: Fdt<'a>,
    offset: usize,
}

/// An item of an iteration over children, as a mathematical value.
pub open spec fn child_item(r: Result<FdtNode<'_>, FdtError>) -> Result<int, Fault> {
    match r {
        Ok(n) => Ok(n.spec_offset()),
        Err(e) => Err(e@),
    }
}

impl<'a> FdtNode<'a> {
    #[verifier::type_invariant]
    spec fn inside_blob(self) -> bool {
        self.offset + 4 <= self.fdt@.len()
    }

    /// The blob that the node is part of.
    pub closed spec fn blob(&self) -> Seq<u8> {
        self.fdt@
    }

    /// The offset of the node's `BeginNode` token in the blob.
    pub closed spec fn spec_offset(&self) -> int {
        self.offset as int
    }

    /// The node of `fdt` whose `BeginNode` token is at `offset`.
    pub(crate) fn at(fdt: Fdt<'a>, offset: usize) -> (n: Self)
        requires
            offset + 4 <= fdt@.len(),
        ensures
            n.blob() == fdt@,
            n.spec_offset() == offset,
    {
        FdtNode { fdt, offset }
    }

    /// The offset of the node's `BeginNode` token in the blob.
    pub fn offset(&self) -> (o: usize)
        ensures
            o == self.spec_offset(),
            o + 4 <= self.blob().len(),
    {
        proof {
            use_type_invariant(self);
        }
        self.offset
    }

    /// The blob that the node is part of.
    pub fn fdt(&self) -> (f: Fdt<'a>)
        ensures
            f@ == self.blob(),
    {
        self.fdt
    }

    /// Returns the name of this node.
    pub fn name(&self) -> (r: Result<&'a str, FdtError>)
        ensures
            match r {
                Ok(s) => node_name(self.blob(), self.spec_offset()) == Ok::<Seq<char>, Fault>(s@),
                Err(e) => node_name(self.blob(), self.spec_offset()) == Err::<Seq<char>, Fault>(
                    e@,
                ),
            },
    {
        proof {
            use_type_invariant(self);
            reveal(node_name);
        }
        let len = self.fdt.data().len();
        let name_offset = self.offset + FDT_TAGSIZE;
        self.fdt.string_at_offset(name_offset, None)
    }

    /// Returns a property by its name: the first one of that name.
    ///
    /// # Performance
    ///
    /// This method iterates through all properties of the node.
    pub fn property(&self, name: &str) -> (r: Result<Option<FdtProperty<'a>>, FdtError>)
        ensures
            match r {
                Ok(Some(p)) => find_prop(node_props(self.blob(), self.spec_offset()), name@)
                    == Ok::<Option<RawProperty>, Fault>(Some(p@)),
                Ok(None) => find_prop(node_props(self.blob(), self.spec_offset()), name@) == Ok::<
                    Option<RawProperty>,
                    Fault,
                >(None),
                Err(e) => find_prop(node_props(self.blob(), self.spec_offset()), name@) == Err::<
                    Option<RawProperty>,
                    Fault,
                >(e@),
            },
    {
        let mut it = self.properties();
        loop
            invariant
                find_prop(it.remaining(), name@) == find_prop(
                    node_props(self.blob(), self.spec_offset()),
                    name@,
                ),
            decreases it.remaining().len(),
        {
            match it.next() {
                None => {
                    return Ok(None);
                },
                Some(Err(e)) => {
                    return Err(e);
                },
                Some(Ok(property)) => {
                    if str_eq(property.name(), name) {
                        return Ok(Some(property));
                    }
                },
            }
        }
    }

    /// Returns an iterator over the properties of this node.
    pub fn properties(&self) -> (it: FdtPropIter<'a>)
        ensures
            it.blob() == self.blob(),
            it.remaining() == node_props(self.blob(), self.spec_offset()),
    {
        proof {
            use_type_invariant(self);
        }
        FdtPropIter::new(self.fdt, self.offset)
    }

    /// Returns a child node by its name: the first one of that name.
    ///
    /// # Performance
    ///
    /// This method's performance is linear in the number of children of this
    /// node because it iterates through the children.
    pub fn child(&self, name: &str) -> (r: Result<Option<FdtNode<'a>>, FdtError>)
        ensures
            match r {
                Ok(Some(c)) => c.blob() == self.blob() && find_child(
                    self.blob(),
                    node_children(self.blob(), self.spec_offset()),
                    name@,
                ) == Ok::<Option<int>, Fault>(Some(c.spec_offset())),
                Ok(None) => find_child(
                    self.blob(),
                    node_children(self.blob(), self.spec_offset()),
                    name@,
                ) == Ok::<Option<int>, Fault>(None),
                Err(e) => find_child(
                    self.blob(),
                    node_children(self.blob(), self.spec_offset()),
                    name@,
                ) == Err::<Option<int>, Fault>(e@),
            },
    {
        let mut it = self.children();
        loop
            invariant
                it.blob() == self.blob(),
                find_child(self.blob(), it.remaining(), name@) == find_child(
                    self.blob(),
                    node_children(self.blob(), self.spec_offset()),
                    name@,
                ),
            decreases it.remaining().len(),
        {
            match it.next() {
                None => {
                    return Ok(None);
                },
                Some(Err(e)) => {
                    return Err(e);
                },
                Some(Ok(child)) => {
                    match child.name() {
                        Err(e) => {
                            return Err(e);
                        },
                        Ok(n) => {
                            if str_eq(n, name) {
                                return Ok(Some(child));
                            }
                        },
                    }
                },
            }
        }
    }

    /// Returns an iterator over the children of this node.
    pub fn children(&self) -> (it: FdtChildIter<'a>)
        ensures
            it.blob() == self.blob(),
            it.remaining() == node_children(self.blob(), self.spec_offset()),
    {
        proof {
            use_type_invariant(self);
        }
        FdtChildIter { fdt: self.fdt, state: IterState::Start(self.offset) }
    }
}

/// An iterator over the children of a device tree node.
pub struct FdtChildIter<'a> {
    fdt: Fdt<'a>,
    state: IterState,
}

impl<'a> FdtChildIter<'a> {
    #[verifier::type_invariant]
    spec fn inside_blob(self) -> bool {
        match self.state {
            IterState::Start(off) => off + 4 <= self.fdt@.len(),
            IterState::Running(cur) => cur <= self.fdt@.len(),
            IterState::Error => true,
        }
    }

    /// The blob that is iterated over.
    pub closed spec fn blob(&self) -> Seq<u8> {
        self.fdt@
    }

    /// The items that are still to come.
    pub closed spec fn remaining(&self) -> Seq<Result<int, Fault>> {
        match self.state {
            IterState::Start(off) => node_children(self.fdt@, off as int),
            IterState::Running(cur) => children_from(self.fdt@, cur as int),
            IterState::Error => Seq::empty(),
        }
    }

    /// Yields the next child, or the error that ends the iteration, or
    /// nothing where the iteration has ended.
    pub fn next(&mut self) -> (r: Option<Result<FdtNode<'a>, FdtError>>)
        ensures
            final(self).blob() == old(self).blob(),
            r matches Some(Ok(n)) ==> n.blob() == old(self).blob(),
            match r {
                Some(item) => old(self).remaining().len() > 0 && child_item(item) == old(
                    self,
                ).remaining()[0] && final(self).remaining() == old(self).remaining().skip(1),
                None => old(self).remaining().len() == 0 && final(self).remaining().len() == 0,
            },
    {
        proof {
            use_type_invariant(&*self);
            reveal(node_children);
        }
        let mut cur: usize = match self.state {
            IterState::Start(offset) => match self.fdt.children_offset(offset) {
                Err(e) => {
                    self.state = IterState::Error;
                    assert(seq![Err::<int, Fault>(e@)].skip(1) =~= Seq::empty());
                    return Some(Err(e));
                },
                Ok(c) => c,
            },
            IterState::Running(c) => c,
            IterState::Error => {
                return None;
            },
        };
        let r = Self::try_next(&self.fdt, &mut cur);
        let failed = match &r {
            Some(Err(_)) => true,
            _ => false,
        };
        if failed {
            self.state = IterState::Error;
        } else {
            self.state = IterState::Running(cur);
        }
        r
    }

    /// Moves `offset` over `Nop` tokens and over at most one child, and
    /// yields that child, or the error met on the way, or nothing at the
    /// `EndNode` that closes the parent.
    pub(crate) fn try_next(fdt: &Fdt<'a>, offset: &mut usize) -> (r: Option<
        Result<FdtNode<'a>, FdtError>,
    >)
        requires
            *old(offset) <= fdt@.len(),
        ensures
            *final(offset) <= fdt@.len(),
            match r {
                Some(Ok(n)) => n.blob() == fdt@ && children_from(fdt@, *old(offset) as int)
                    == seq![Ok::<int, Fault>(n.spec_offset())] + children_from(
                    fdt@,
                    *final(offset) as int,
                ),
                Some(Err(e)) => children_from(fdt@, *old(offset) as int) == seq![
                    Err::<int, Fault>(e@),
                ],
                None => children_from(fdt@, *old(offset) as int).len() == 0 && children_from(
                    fdt@,
                    *final(offset) as int,
                ).len() == 0,
            },
    {
        let len = fdt.data().len();
        loop
            invariant
                len == fdt@.len(),
                *offset <= fdt@.len(),
                children_from(fdt@, *offset as int) == children_from(fdt@, *old(offset) as int),
            decreases fdt@.len() - *offset,
        {
            proof {
                lemma_children_from_unfold(fdt@, *offset as int);
            }
            let token = match fdt.read_token(*offset) {
                Ok(token) => token,
                Err(e) => {
                    return Some(Err(e));
                },
            };
            match token {
                FdtToken::BeginNode => {
                    let node_offset = *offset;
                    match fdt.next_sibling_offset(node_offset) {
                        Ok(next) => {
                            *offset = next;
                        },
                        Err(e) => {
                            return Some(Err(e));
                        },
                    };
                    return Some(Ok(FdtNode::at(*fdt, node_offset)));
                },
                FdtToken::EndNode => {
                    return None;
                },
                FdtToken::Nop => {
                    *offset = *offset + FDT_TAGSIZE;
                },
                FdtToken::Prop => {
                    return Some(Err(FdtError::new(FdtErrorKind::BadToken(FDT_PROP), *offset)));
                },
                FdtToken::End => {
                    return Some(Err(FdtError::new(FdtErrorKind::BadToken(FDT_END), *offset)));
                },
            }
        }
    }
}

} // verus!
