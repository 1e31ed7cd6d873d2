//! A mutable, in-memory representation of a device tree node.

use super::entries::{entry_value, insert_entry, only_at, remove_entry};
use super::property::{DeviceTreeProperty, PropertyView};
use crate::error::{Fault, FdtError, FdtErrorKind};
use crate::fdt::node::{children_from, node_children};
use crate::fdt::property::{node_props, RawProperty};
use crate::fdt::{
    children_start, lemma_node_end_bounds, lemma_skip_props_bounds, lemma_body_start_bounds,
    node_end, node_name, token_at, FdtNode, FdtToken,
};
use indexmap::IndexMap;
use twox_hash::xxhash64::State;
use vstd::prelude::*;
use vstd::string::StringExecFns;

verus! {

/// What a node holds: its name, its properties and its children, each in
/// the order of insertion and under the key it was inserted with.
pub ghost struct NodeView {
    pub name: Seq<char>,
    pub properties: Seq<(Seq<char>, PropertyView)>,
    pub children: Seq<(Seq<char>, NodeView)>,
}

/// Makes indexmap's `IndexMap` known as a type of which nothing is seen. What
/// a map holds is named by [`property_entries`].
#[verifier::external_type_specification]
#[verifier::external_body]
#[verifier::reject_recursive_types(K)]
#[verifier::reject_recursive_types(V)]
#[verifier::reject_recursive_types(S)]
pub struct ExIndexMap<K, V, S>(IndexMap<K, V, S>);

/// Makes twox-hash's `xxhash64::State` known as a type of which nothing is
/// seen.
#[verifier::external_type_specification]
#[verifier::external_body]
pub struct ExState(State);

/// The children of a node: an insertion-ordered map from names to nodes.
///
/// Trusted: holds an `IndexMap` of nodes, of which nothing is seen. A node
/// cannot hold an `IndexMap` of nodes in a field of its own, since a type
/// may not stand inside itself in a type of which nothing is known. What
/// the map holds is named by [`child_entries`].
#[verifier::external_body]
#[derive(Debug, PartialEq, Eq)]
pub struct ChildMap {
    inner: IndexMap<String, DeviceTreeNode, State>,
}

/// The entries that an `IndexMap` of properties holds, in their order: each
/// key with the view of its value.
pub uninterp spec fn property_entries(m: IndexMap<String, DeviceTreeProperty, State>) -> Seq<
    (Seq<char>, PropertyView),
>;

/// The entries that an `IndexMap` of children holds, in their order: each key
/// with the view of its value.
pub uninterp spec fn child_entries(m: ChildMap) -> Seq<(Seq<char>, NodeView)>;

/// The seed of the hasher of every map of this module.
pub const HASH_SEED: u64 = 0xdead_cafe;

/// A hasher state for a map.
///
/// Trusted: calls twox-hash's `xxhash64::State::with_seed`, which stores
/// the seed. Nothing is claimed of the result.
#[verifier::external_body]
fn hasher_with_seed(seed: u64) -> State {
    State::with_seed(seed)
}

/// An empty map of properties.
///
/// Trusted: calls `IndexMap::with_hasher`. The contract claims that the new
/// map has no entries.
#[verifier::external_body]
fn properties_with_hasher(hasher: State) -> (m: IndexMap<String, DeviceTreeProperty, State>)
    ensures
        property_entries(m) == Seq::<(Seq<char>, PropertyView)>::empty(),
{
    IndexMap::with_hasher(hasher)
}

/// The number of properties.
///
/// Trusted: calls `IndexMap::len`. The contract claims that it is the
/// number of entries.
#[verifier::external_body]
fn properties_len(m: &IndexMap<String, DeviceTreeProperty, State>) -> (n: usize)
    ensures
        n == property_entries(*m).len(),
{
    m.len()
}

/// The entry at position `index`.
///
/// Trusted: calls `IndexMap::get_index`. The contract claims that it yields
/// the key and the value of the entry at that position, and nothing beyond
/// the last position; and that the key it yields is the key of no other
/// entry, as holds of a map.
#[verifier::external_body]
fn properties_get_index(m: &IndexMap<String, DeviceTreeProperty, State>, index: usize) -> (r:
    Option<(&String, &DeviceTreeProperty)>)
    ensures
        match r {
            Some((k, p)) => index < property_entries(*m).len() && k@ == property_entries(
                *m,
            )[index as int].0 && p@ == property_entries(*m)[index as int].1,
            None => index >= property_entries(*m).len(),
        },
        r matches Some((k, _)) ==> only_at(property_entries(*m), k@, index as int),
{
    m.get_index(index)
}

/// The property at position `index`, for writing.
///
/// Trusted: calls `IndexMap::get_index_mut`. The contract claims that it
/// yields the value of the entry at that position, that what is written
/// through the reference becomes that entry's value, and that the key and
/// all other entries stay.
#[verifier::external_body]
fn properties_get_index_mut(
    m: &mut IndexMap<String, DeviceTreeProperty, State>,
    index: usize,
) -> (r: Option<&mut DeviceTreeProperty>)
    ensures
        match r {
            Some(p) => index < property_entries(*old(m)).len() && p@ == property_entries(
                *old(m),
            )[index as int].1 && property_entries(*final(m)) == property_entries(
                *old(m),
            ).update(
                index as int,
                (property_entries(*old(m))[index as int].0, final(p)@),
            ),
            None => index >= property_entries(*old(m)).len() && property_entries(*final(m))
                == property_entries(*old(m)),
        },
{
    m.get_index_mut(index).map(|(_, v)| v)
}

/// The property stored under `key`.
///
/// Trusted: calls `IndexMap::get`. The contract claims that it yields the
/// value of the entry with that key, and nothing where no entry has it.
#[verifier::external_body]
fn properties_get<'a>(m: &'a IndexMap<String, DeviceTreeProperty, State>, key: &str) -> (r: Option<
    &'a DeviceTreeProperty,
>)
    ensures
        match r {
            Some(p) => entry_value(property_entries(*m), key@) == Some(p@),
            None => entry_value(property_entries(*m), key@) is None,
        },
{
    m.get(key)
}

/// The property stored under `key`, for writing.
///
/// Trusted: calls `IndexMap::get_mut`. The contract claims that it yields
/// the value of the entry with that key, that what is written through the
/// reference becomes that entry's value, and that the key and all other
/// entries stay.
#[verifier::external_body]
fn properties_get_mut<'a>(m: &'a mut IndexMap<String, DeviceTreeProperty, State>, key: &str) -> (r:
    Option<&'a mut DeviceTreeProperty>)
    ensures
        match r {
            Some(p) => entry_value(property_entries(*old(m)), key@) == Some(p@)
                && property_entries(*final(m)) == insert_entry(
                property_entries(*old(m)),
                key@,
                final(p)@,
            ),
            None => entry_value(property_entries(*old(m)), key@) is None && property_entries(
                *final(m),
            ) == property_entries(*old(m)),
        },
{
    m.get_mut(key)
}

/// Stores a property under `key`.
///
/// Trusted: calls `IndexMap::insert`. The contract claims what its
/// documentation says: an entry with that key keeps its place and gets the
/// new value, and the old value is returned; otherwise the pair is
/// inserted last and nothing is returned.
#[verifier::external_body]
fn properties_insert(
    m: &mut IndexMap<String, DeviceTreeProperty, State>,
    key: String,
    value: DeviceTreeProperty,
) -> (r: Option<DeviceTreeProperty>)
    ensures
        property_entries(*final(m)) == insert_entry(property_entries(*old(m)), key@, value@),
        match r {
            Some(p) => entry_value(property_entries(*old(m)), key@) == Some(p@),
            None => entry_value(property_entries(*old(m)), key@) is None,
        },
{
    m.insert(key, value)
}

/// Removes the property stored under `key`.
///
/// Trusted: calls `IndexMap::shift_remove`. The contract claims what its
/// documentation says: the entry with that key is removed and its value
/// returned, the entries after it keep their order; nothing changes where
/// no entry has the key.
#[verifier::external_body]
fn properties_shift_remove(m: &mut IndexMap<String, DeviceTreeProperty, State>, key: &str) -> (r:
    Option<DeviceTreeProperty>)
    ensures
        property_entries(*final(m)) == remove_entry(property_entries(*old(m)), key@),
        match r {
            Some(p) => entry_value(property_entries(*old(m)), key@) == Some(p@),
            None => entry_value(property_entries(*old(m)), key@) is None,
        },
{
    m.shift_remove(key)
}

/// A copy of a map of properties.
///
/// Trusted: calls `IndexMap::clone`, which clones every key and value in
/// place. The contract claims that the copy has the same entries.
#[verifier::external_body]
fn properties_clone(m: &IndexMap<String, DeviceTreeProperty, State>) -> (r: IndexMap<
    String,
    DeviceTreeProperty,
    State,
>)
    ensures
        property_entries(r) == property_entries(*m),
{
    m.clone()
}

/// An empty map of children.
///
/// Trusted: calls `IndexMap::with_hasher`. The contract claims that the new
/// map has no entries.
#[verifier::external_body]
fn children_with_hasher(hasher: State) -> (m: ChildMap)
    ensures
        child_entries(m) == Seq::<(Seq<char>, NodeView)>::empty(),
{
    ChildMap { inner: IndexMap::with_hasher(hasher) }
}

/// The number of children.
///
/// Trusted: calls `IndexMap::len`. The contract claims that it is the
/// number of entries.
#[verifier::external_body]
fn children_len(m: &ChildMap) -> (n: usize)
    ensures
        n == child_entries(*m).len(),
{
    m.inner.len()
}

/// The entry at position `index`.
///
/// Trusted: calls `IndexMap::get_index`. The contract claims that it yields
/// the key and the value of the entry at that position, and nothing beyond
/// the last position; and that the key it yields is the key of no other
/// entry, as holds of a map.
#[verifier::external_body]
fn children_get_index(m: &ChildMap, index: usize) -> (r: Option<(&String, &DeviceTreeNode)>)
    ensures
        match r {
            Some((k, n)) => index < child_entries(*m).len() && k@ == child_entries(
                *m,
            )[index as int].0 && n@ == child_entries(*m)[index as int].1,
            None => index >= child_entries(*m).len(),
        },
        r matches Some((k, _)) ==> only_at(child_entries(*m), k@, index as int),
{
    m.inner.get_index(index)
}

/// The child at position `index`, for writing.
///
/// Trusted: calls `IndexMap::get_index_mut`. The contract claims that it
/// yields the value of the entry at that position, that what is written
/// through the reference becomes that entry's value, and that the key and
/// all other entries stay.
#[verifier::external_body]
fn children_get_index_mut(m: &mut ChildMap, index: usize) -> (r: Option<&mut DeviceTreeNode>)
    ensures
        match r {
            Some(n) => index < child_entries(*old(m)).len() && n@ == child_entries(
                *old(m),
            )[index as int].1 && child_entries(*final(m)) == child_entries(*old(m)).update(
                index as int,
                (child_entries(*old(m))[index as int].0, final(n)@),
            ),
            None => index >= child_entries(*old(m)).len() && child_entries(*final(m))
                == child_entries(*old(m)),
        },
{
    m.inner.get_index_mut(index).map(|(_, v)| v)
}

/// The child stored under `key`.
///
/// Trusted: calls `IndexMap::get`. The contract claims that it yields the
/// value of the entry with that key, and nothing where no entry has it.
#[verifier::external_body]
fn children_get<'a>(m: &'a ChildMap, key: &str) -> (r: Option<&'a DeviceTreeNode>)
    ensures
        match r {
            Some(n) => entry_value(child_entries(*m), key@) == Some(n@),
            None => entry_value(child_entries(*m), key@) is None,
        },
{
    m.inner.get(key)
}

/// The child stored under `key`, for writing.
///
/// Trusted: calls `IndexMap::get_mut`. The contract claims that it yields
/// the value of the entry with that key, that what is written through the
/// reference becomes that entry's value, and that the key and all other
/// entries stay.
#[verifier::external_body]
fn children_get_mut<'a>(m: &'a mut ChildMap, key: &str) -> (r: Option<&'a mut DeviceTreeNode>)
    ensures
        match r {
            Some(n) => entry_value(child_entries(*old(m)), key@) == Some(n@) && child_entries(
                *final(m),
            ) == insert_entry(child_entries(*old(m)), key@, final(n)@),
            None => entry_value(child_entries(*old(m)), key@) is None && child_entries(*final(m))
                == child_entries(*old(m)),
        },
{
    m.inner.get_mut(key)
}

/// Stores a child under `key`.
///
/// Trusted: calls `IndexMap::insert`. The contract claims what its
/// documentation says: an entry with that key keeps its place and gets the
/// new value, and the old value is returned; otherwise the pair is
/// inserted last and nothing is returned.
#[verifier::external_body]
fn children_insert(m: &mut ChildMap, key: String, value: DeviceTreeNode) -> (r: Option<
    DeviceTreeNode,
>)
    ensures
        child_entries(*final(m)) == insert_entry(child_entries(*old(m)), key@, value@),
        match r {
            Some(n) => entry_value(child_entries(*old(m)), key@) == Some(n@),
            None => entry_value(child_entries(*old(m)), key@) is None,
        },
{
    m.inner.insert(key, value)
}

/// Removes the child stored under `key`.
///
/// Trusted: calls `IndexMap::shift_remove`. The contract claims what its
/// documentation says: the entry with that key is removed and its value
/// returned, the entries after it keep their order; nothing changes where
/// no entry has the key.
#[verifier::external_body]
fn children_shift_remove(m: &mut ChildMap, key: &str) -> (r: Option<DeviceTreeNode>)
    ensures
        child_entries(*final(m)) == remove_entry(child_entries(*old(m)), key@),
        match r {
            Some(n) => entry_value(child_entries(*old(m)), key@) == Some(n@),
            None => entry_value(child_entries(*old(m)), key@) is None,
        },
{
    m.inner.shift_remove(key)
}

/// A copy of a map of children.
///
/// Trusted: calls `IndexMap::clone`, which clones every key and value in
/// place. The contract claims that the copy has the same entries.
#[verifier::external_body]
fn children_clone(m: &ChildMap) -> (r: ChildMap)
    ensures
        child_entries(r) == child_entries(*m),
{
    ChildMap { inner: m.inner.clone() }
}

/// A mutable, in-memory representation of a device tree node.
///
/// Children and properties are stored in [`IndexMap`]s, which provide O(1)
/// lookups by name while preserving insertion order.
#[derive(Debug, PartialEq, Eq)]
pub struct DeviceTreeNode {
    name: String,
    properties: IndexMap<String, DeviceTreeProperty, State>,
    children: ChildMap,
}

impl View for DeviceTreeNode {
    type V = NodeView;

    closed spec fn view(&self) -> NodeView {
        NodeView {
            name: self.name@,
            properties: property_entries(self.properties),
            children: child_entries(self.children),
        }
    }
}

impl Clone for DeviceTreeNode {
    fn clone(&self) -> (r: Self)
        ensures
            r@ == self@,
    {
        DeviceTreeNode {
            name: self.name.clone(),
            properties: properties_clone(&self.properties),
            children: children_clone(&self.children),
        }
    }
}

impl Default for DeviceTreeNode {
    fn default() -> (r: Self)
        ensures
            r@ == (NodeView {
                name: Seq::empty(),
                properties: Seq::empty(),
                children: Seq::empty(),
            }),
    {
        Self {
            name: String::new(),
            properties: properties_with_hasher(hasher_with_seed(HASH_SEED)),
            children: children_with_hasher(hasher_with_seed(HASH_SEED)),
        }
    }
}

impl DeviceTreeNode {
    /// Creates a new [`DeviceTreeNode`] with the given name.
    #[must_use]
    pub fn new(name: &str) -> (r: Self)
        ensures
            r@ == (NodeView { name: name@, properties: Seq::empty(), children: Seq::empty() }),
    {
        Self {
            name: String::from_str(name),
            properties: properties_with_hasher(hasher_with_seed(HASH_SEED)),
            children: children_with_hasher(hasher_with_seed(HASH_SEED)),
        }
    }

    /// Creates a new [`DeviceTreeNodeBuilder`] with the given name.
    #[must_use]
    pub fn builder(name: &str) -> (r: DeviceTreeNodeBuilder)
        ensures
            r@ == (NodeView { name: name@, properties: Seq::empty(), children: Seq::empty() }),
    {
        DeviceTreeNodeBuilder::new(name)
    }

    /// Returns the name of this node.
    #[must_use]
    pub fn name(&self) -> (n: &str)
        ensures
            n@ == self@.name,
    {
        self.name.as_str()
    }

    /// Returns the properties of this node, in their order.
    pub fn properties(&self) -> (r: Vec<&DeviceTreeProperty>)
        ensures
            r@.len() == self@.properties.len(),
            forall|i: int| 0 <= i < r@.len() ==> (#[trigger] r@[i])@ == self@.properties[i].1,
    {
        let n = properties_len(&self.properties);
        let mut out: Vec<&DeviceTreeProperty> = Vec::new();
        let mut i: usize = 0;
        while i < n
            invariant
                n == self@.properties.len(),
                i <= n,
                out@.len() == i,
                forall|k: int| 0 <= k < i ==> (#[trigger] out@[k])@ == self@.properties[k].1,
            decreases n - i,
        {
            match properties_get_index(&self.properties, i) {
                Some((_, p)) => {
                    out.push(p);
                },
                None => {},
            }
            i += 1;
        }
        out
    }

    /// Returns the number of properties of this node.
    pub fn property_count(&self) -> (n: usize)
        ensures
            n == self@.properties.len(),
    {
        properties_len(&self.properties)
    }

    /// Returns the property at position `index`, for writing; nothing
    /// beyond the last position.
    pub fn properties_mut(&mut self, index: usize) -> (r: Option<&mut DeviceTreeProperty>)
        ensures
            match r {
                Some(p) => index < old(self)@.properties.len() && p@ == old(
                    self,
                )@.properties[index as int].1 && final(self)@ == (NodeView {
                    properties: old(self)@.properties.update(
                        index as int,
                        (old(self)@.properties[index as int].0, final(p)@),
                    ),
                    ..old(self)@
                }),
                None => index >= old(self)@.properties.len() && final(self)@ == old(self)@,
            },
    {
        properties_get_index_mut(&mut self.properties, index)
    }

    /// Finds a property by its name and returns a reference to it.
    ///
    /// # Performance
    ///
    /// This is a constant-time operation.
    #[must_use]
    pub fn property(&self, name: &str) -> (r: Option<&DeviceTreeProperty>)
        ensures
            match r {
                Some(p) => entry_value(self@.properties, name@) == Some(p@),
                None => entry_value(self@.properties, name@) is None,
            },
    {
        properties_get(&self.properties, name)
    }

    /// Finds a property by its name and returns a mutable reference to it.
    ///
    /// # Performance
    ///
    /// This is a constant-time operation.
    #[must_use]
    pub fn property_mut(&mut self, name: &str) -> (r: Option<&mut DeviceTreeProperty>)
        ensures
            match r {
                Some(p) => entry_value(old(self)@.properties, name@) == Some(p@) && final(self)@
                    == (NodeView {
                    properties: insert_entry(old(self)@.properties, name@, final(p)@),
                    ..old(self)@
                }),
                None => entry_value(old(self)@.properties, name@) is None && final(self)@ == old(
                    self,
                )@,
            },
    {
        properties_get_mut(&mut self.properties, name)
    }

    /// Adds a property to this node, under its name. A property that was
    /// there under that name is replaced and keeps its place.
    ///
    /// # Performance
    ///
    /// This is a constant-time operation.
    pub fn add_property(&mut self, property: DeviceTreeProperty)
        ensures
            final(self)@ == (NodeView {
                properties: insert_entry(old(self)@.properties, property@.name, property@),
                ..old(self)@
            }),
    {
        let key = String::from_str(property.name());
        let _ = properties_insert(&mut self.properties, key, property);
    }

    /// Removes a property from this node by its name.
    ///
    /// # Performance
    ///
    /// This is a linear-time operation, as it needs to shift elements after
    /// the removed property.
    pub fn remove_property(&mut self, name: &str) -> (r: Option<DeviceTreeProperty>)
        ensures
            final(self)@ == (NodeView {
                properties: remove_entry(old(self)@.properties, name@),
                ..old(self)@
            }),
            match r {
                Some(p) => entry_value(old(self)@.properties, name@) == Some(p@),
                None => entry_value(old(self)@.properties, name@) is None,
            },
    {
        properties_shift_remove(&mut self.properties, name)
    }

    /// Returns the children of this node, in their order.
    pub fn children(&self) -> (r: Vec<&DeviceTreeNode>)
        ensures
            r@.len() == self@.children.len(),
            forall|i: int| 0 <= i < r@.len() ==> (#[trigger] r@[i])@ == self@.children[i].1,
    {
        let n = children_len(&self.children);
        let mut out: Vec<&DeviceTreeNode> = Vec::new();
        let mut i: usize = 0;
        while i < n
            invariant
                n == self@.children.len(),
                i <= n,
                out@.len() == i,
                forall|k: int| 0 <= k < i ==> (#[trigger] out@[k])@ == self@.children[k].1,
            decreases n - i,
        {
            match children_get_index(&self.children, i) {
                Some((_, c)) => {
                    out.push(c);
                },
                None => {},
            }
            i += 1;
        }
        out
    }

    /// Returns the number of children of this node.
    pub fn child_count(&self) -> (n: usize)
        ensures
            n == self@.children.len(),
    {
        children_len(&self.children)
    }

    /// Returns the child at position `index`; nothing beyond the last
    /// position.
    pub fn child_at(&self, index: usize) -> (r: Option<&DeviceTreeNode>)
        ensures
            match r {
                Some(c) => index < self@.children.len() && c@ == self@.children[index as int].1,
                None => index >= self@.children.len(),
            },
    {
        match children_get_index(&self.children, index) {
            Some((_, c)) => Some(c),
            None => None,
        }
    }

    /// Returns the child at position `index` with the name that it is
    /// stored under; nothing beyond the last position. No other child is
    /// stored under that name.
    pub fn child_entry(&self, index: usize) -> (r: Option<(&str, &DeviceTreeNode)>)
        ensures
            match r {
                Some((k, c)) => index < self@.children.len() && k@ == self@.children[index as int].0
                    && c@ == self@.children[index as int].1 && only_at(
                    self@.children,
                    k@,
                    index as int,
                ),
                None => index >= self@.children.len(),
            },
    {
        match children_get_index(&self.children, index) {
            Some((k, c)) => Some((k.as_str(), c)),
            None => None,
        }
    }

    /// Returns the property at position `index`; nothing beyond the last
    /// position.
    pub fn property_at(&self, index: usize) -> (r: Option<&DeviceTreeProperty>)
        ensures
            match r {
                Some(p) => index < self@.properties.len() && p@ == self@.properties[index as int].1,
                None => index >= self@.properties.len(),
            },
    {
        match properties_get_index(&self.properties, index) {
            Some((_, p)) => Some(p),
            None => None,
        }
    }

    /// Returns the property at position `index` with the name that it is
    /// stored under; nothing beyond the last position. No other property
    /// is stored under that name.
    pub fn property_entry(&self, index: usize) -> (r: Option<(&str, &DeviceTreeProperty)>)
        ensures
            match r {
                Some((k, p)) => index < self@.properties.len() && k@
                    == self@.properties[index as int].0 && p@ == self@.properties[index as int].1
                    && only_at(self@.properties, k@, index as int),
                None => index >= self@.properties.len(),
            },
    {
        match properties_get_index(&self.properties, index) {
            Some((k, p)) => Some((k.as_str(), p)),
            None => None,
        }
    }

    /// Returns the child at position `index`, for writing; nothing beyond
    /// the last position.
    pub fn children_mut(&mut self, index: usize) -> (r: Option<&mut DeviceTreeNode>)
        ensures
            match r {
                Some(c) => index < old(self)@.children.len() && c@ == old(
                    self,
                )@.children[index as int].1 && final(self)@ == (NodeView {
                    children: old(self)@.children.update(
                        index as int,
                        (old(self)@.children[index as int].0, final(c)@),
                    ),
                    ..old(self)@
                }),
                None => index >= old(self)@.children.len() && final(self)@ == old(self)@,
            },
    {
        children_get_index_mut(&mut self.children, index)
    }

    /// Finds a child by its name and returns a reference to it.
    ///
    /// # Performance
    ///
    /// This is a constant-time operation.
    #[must_use]
    pub fn child(&self, name: &str) -> (r: Option<&DeviceTreeNode>)
        ensures
            match r {
                Some(c) => entry_value(self@.children, name@) == Some(c@),
                None => entry_value(self@.children, name@) is None,
            },
    {
        children_get(&self.children, name)
    }

    /// Finds a child by its name and returns a mutable reference to it.
    ///
    /// # Performance
    ///
    /// This is a constant-time operation.
    #[must_use]
    pub fn child_mut(&mut self, name: &str) -> (r: Option<&mut DeviceTreeNode>)
        ensures
            match r {
                Some(c) => entry_value(old(self)@.children, name@) == Some(c@) && final(self)@ == (
                NodeView {
                    children: insert_entry(old(self)@.children, name@, final(c)@),
                    ..old(self)@
                }),
                None => entry_value(old(self)@.children, name@) is None && final(self)@ == old(
                    self,
                )@,
            },
    {
        children_get_mut(&mut self.children, name)
    }

    /// Adds a child to this node, under its name. A child that was there
    /// under that name is replaced, with all below it, and keeps its place.
    ///
    /// # Performance
    ///
    /// This is a constant-time operation.
    pub fn add_child(&mut self, child: DeviceTreeNode)
        ensures
            final(self)@ == (NodeView {
                children: insert_entry(old(self)@.children, child@.name, child@),
                ..old(self)@
            }),
    {
        let key = String::from_str(child.name());
        let _ = children_insert(&mut self.children, key, child);
    }

    /// Removes a child from this node by its name.
    ///
    /// # Performance
    ///
    /// This is a linear-time operation, as it needs to shift elements after
    /// the removed child.
    pub fn remove_child(&mut self, name: &str) -> (r: Option<DeviceTreeNode>)
        ensures
            final(self)@ == (NodeView {
                children: remove_entry(old(self)@.children, name@),
                ..old(self)@
            }),
            match r {
                Some(c) => entry_value(old(self)@.children, name@) == Some(c@),
                None => entry_value(old(self)@.children, name@) is None,
            },
    {
        children_shift_remove(&mut self.children, name)
    }
}

/// The properties that a node gets from the items of an iteration: each
/// inserted under its name, after `acc`; the first error where there is
/// one.
pub open spec fn model_props(
    items: Seq<Result<RawProperty, Fault>>,
    acc: Seq<(Seq<char>, PropertyView)>,
) -> Result<Seq<(Seq<char>, PropertyView)>, Fault>
    decreases items.len(),
{
    if items.len() == 0 {
        Ok(acc)
    } else {
        match items[0] {
            Err(f) => Err(f),
            Ok(p) => model_props(
                items.skip(1),
                insert_entry(acc, p.name, PropertyView { name: p.name, value: p.value }),
            ),
        }
    }
}

/// The node that the blob `b` holds at `off`, with all below it: its name,
/// its properties and its children, each inserted under its name in the
/// order of the blob; the first error met where there is one.
#[verifier::opaque]
pub open spec fn model_node(b: Seq<u8>, off: int) -> Result<NodeView, Fault>
    decreases b.len() - off, 0nat, 0nat,
{
    if off < 0 || off + 4 > b.len() {
        Err(Fault { kind: FdtErrorKind::InvalidOffset, offset: off })
    } else {
        match node_name(b, off) {
            Err(f) => Err(f),
            Ok(name) => match model_props(node_props(b, off), Seq::empty()) {
                Err(f) => Err(f),
                Ok(properties) => match model_children(
                    b,
                    node_children(b, off),
                    off,
                    Seq::empty(),
                ) {
                    Err(f) => Err(f),
                    Ok(children) => Ok(NodeView { name, properties, children }),
                },
            },
        }
    }
}

/// The children that a node at `parent` gets from the items of an
/// iteration: each child read with all below it and inserted under its
/// name, after `acc`; the first error met where there is one. Children
/// stand after their parent.
#[verifier::opaque]
pub open spec fn model_children(
    b: Seq<u8>,
    items: Seq<Result<int, Fault>>,
    parent: int,
    acc: Seq<(Seq<char>, NodeView)>,
) -> Result<Seq<(Seq<char>, NodeView)>, Fault>
    decreases b.len() - parent - 1, 1nat, items.len(),
{
    if items.len() == 0 {
        Ok(acc)
    } else {
        match items[0] {
            Err(f) => Err(f),
            Ok(off) => if off <= parent || off + 4 > b.len() {
                Err(Fault { kind: FdtErrorKind::InvalidOffset, offset: off })
            } else {
                match model_node(b, off) {
                    Err(f) => Err(f),
                    Ok(n) => model_children(b, items.skip(1), parent, insert_entry(acc, n.name, n)),
                }
            },
        }
    }
}

/// What `model_node` is, one step unfolded.
pub proof fn lemma_model_node_unfold(b: Seq<u8>, off: int)
    requires
        0 <= off,
        off + 4 <= b.len(),
    ensures
        model_node(b, off) == match node_name(b, off) {
            Err(f) => Err::<NodeView, Fault>(f),
            Ok(name) => match model_props(node_props(b, off), Seq::empty()) {
                Err(f) => Err(f),
                Ok(properties) => match model_children(
                    b,
                    node_children(b, off),
                    off,
                    Seq::empty(),
                ) {
                    Err(f) => Err(f),
                    Ok(children) => Ok(NodeView { name, properties, children }),
                },
            },
        },
{
    reveal_with_fuel(model_node, 2);
    reveal_with_fuel(model_children, 2);
}

/// What `model_children` is, one step unfolded.
pub proof fn lemma_model_children_unfold(
    b: Seq<u8>,
    items: Seq<Result<int, Fault>>,
    parent: int,
    acc: Seq<(Seq<char>, NodeView)>,
)
    ensures
        items.len() == 0 ==> model_children(b, items, parent, acc) == Ok::<
            Seq<(Seq<char>, NodeView)>,
            Fault,
        >(acc),
        items.len() > 0 ==> model_children(b, items, parent, acc) == match items[0] {
            Err(f) => Err::<Seq<(Seq<char>, NodeView)>, Fault>(f),
            Ok(off) => if off <= parent || off + 4 > b.len() {
                Err(Fault { kind: FdtErrorKind::InvalidOffset, offset: off })
            } else {
                match model_node(b, off) {
                    Err(f) => Err(f),
                    Ok(n) => model_children(b, items.skip(1), parent, insert_entry(acc, n.name, n)),
                }
            },
        },
{
    reveal_with_fuel(model_node, 2);
    reveal_with_fuel(model_children, 2);
}

/// The children that an iteration from `cur` on yields stand at or after
/// `cur`, inside the blob.
pub proof fn lemma_children_from_bounds(b: Seq<u8>, cur: int)
    requires
        0 <= cur <= b.len(),
    ensures
        forall|i: int|
            0 <= i < children_from(b, cur).len() ==> (#[trigger] children_from(b, cur)[i]
                matches Ok(o) ==> cur <= o && o + 4 <= b.len()),
    decreases b.len() - cur,
{
    reveal_with_fuel(children_from, 2);
    match token_at(b, cur) {
        Err(f) => {},
        Ok(FdtToken::BeginNode) => {
            lemma_node_end_bounds(b, cur);
            match node_end(b, cur) {
                Err(f) => {},
                Ok(next) => {
                    lemma_children_from_bounds(b, next);
                    let rest = children_from(b, next);
                    let all = children_from(b, cur);
                    assert(all == seq![Ok::<int, Fault>(cur)] + rest);
                    assert forall|i: int| 0 <= i < all.len() implies (#[trigger] all[i] matches Ok(
                        o,
                    ) ==> cur <= o && o + 4 <= b.len()) by {
                        if i > 0 {
                            assert(all[i] == rest[i - 1]);
                        }
                    }
                },
            }
        },
        Ok(FdtToken::Nop) => {
            lemma_children_from_bounds(b, cur + 4);
        },
        Ok(_) => {},
    }
}

/// The children of the node at `off` stand after it, inside the blob.
pub proof fn lemma_node_children_bounds(b: Seq<u8>, off: int)
    requires
        0 <= off,
        off + 4 <= b.len(),
    ensures
        forall|i: int|
            0 <= i < node_children(b, off).len() ==> (#[trigger] node_children(b, off)[i]
                matches Ok(o) ==> off + 5 <= o && o + 4 <= b.len()),
{
    reveal(node_children);
    lemma_body_start_bounds(b, off);
    if crate::fdt::body_start(b, off) is Ok {
        lemma_skip_props_bounds(b, crate::fdt::body_start(b, off)->Ok_0);
    }
    match children_start(b, off) {
        Err(f) => {},
        Ok(c) => {
            lemma_children_from_bounds(b, c);
        },
    }
}

impl DeviceTreeNode {
    /// Copies a node out of a blob, with all below it.
    ///
    /// # Errors
    ///
    /// Returns the first error met while reading the node's name, then its
    /// properties, then its children in their order.
    pub fn try_from(node: FdtNode<'_>) -> (r: Result<Self, FdtError>)
        ensures
            match r {
                Ok(n) => model_node(node.blob(), node.spec_offset()) == Ok::<NodeView, Fault>(n@),
                Err(e) => model_node(node.blob(), node.spec_offset()) == Err::<NodeView, Fault>(
                    e@,
                ),
            },
        decreases node.blob().len() - node.spec_offset(), 1nat,
    {
        let offset = node.offset();
        proof {
            lemma_model_node_unfold(node.blob(), offset as int);
        }
        let name = match node.name() {
            Err(e) => {
                return Err(e);
            },
            Ok(n) => n,
        };
        let mut result = DeviceTreeNode::new(name);
        match Self::copy_properties(&node, &mut result) {
            Err(e) => {
                return Err(e);
            },
            Ok(()) => {},
        }
        match Self::copy_children(&node, &mut result) {
            Err(e) => {
                return Err(e);
            },
            Ok(()) => {},
        }
        Ok(result)
    }

    /// Copies the properties of `node` into `into`, in their order.
    fn copy_properties(node: &FdtNode<'_>, into: &mut DeviceTreeNode) -> (r: Result<(), FdtError>)
        ensures
            match r {
                Ok(()) => model_props(
                    node_props(node.blob(), node.spec_offset()),
                    old(into)@.properties,
                ) == Ok::<Seq<(Seq<char>, PropertyView)>, Fault>(final(into)@.properties),
                Err(e) => model_props(
                    node_props(node.blob(), node.spec_offset()),
                    old(into)@.properties,
                ) == Err::<Seq<(Seq<char>, PropertyView)>, Fault>(e@),
            },
            final(into)@.name == old(into)@.name,
            final(into)@.children == old(into)@.children,
    {
        let ghost goal = model_props(
            node_props(node.blob(), node.spec_offset()),
            into@.properties,
        );
        let mut props = node.properties();
        loop
            invariant
                into@.name == old(into)@.name,
                into@.children == old(into)@.children,
                goal == model_props(
                    node_props(node.blob(), node.spec_offset()),
                    old(into)@.properties,
                ),
                model_props(props.remaining(), into@.properties) == goal,
            decreases props.remaining().len(),
        {
            match props.next() {
                None => {
                    return Ok(());
                },
                Some(Err(e)) => {
                    return Err(e);
                },
                Some(Ok(p)) => {
                    let property = DeviceTreeProperty::new(
                        p.name(),
                        vstd::slice::slice_to_vec(p.value()),
                    );
                    into.add_property(property);
                },
            }
        }
    }

    /// Copies the children of `node` into `into`, in their order, each with
    /// all below it.
    fn copy_children(node: &FdtNode<'_>, into: &mut DeviceTreeNode) -> (r: Result<(), FdtError>)
        ensures
            match r {
                Ok(()) => model_children(
                    node.blob(),
                    node_children(node.blob(), node.spec_offset()),
                    node.spec_offset(),
                    old(into)@.children,
                ) == Ok::<Seq<(Seq<char>, NodeView)>, Fault>(final(into)@.children),
                Err(e) => model_children(
                    node.blob(),
                    node_children(node.blob(), node.spec_offset()),
                    node.spec_offset(),
                    old(into)@.children,
                ) == Err::<Seq<(Seq<char>, NodeView)>, Fault>(e@),
            },
            final(into)@.name == old(into)@.name,
            final(into)@.properties == old(into)@.properties,
        decreases node.blob().len() - node.spec_offset(), 0nat,
    {
        let ghost b = node.blob();
        let offset = node.offset();
        let ghost all = node_children(b, offset as int);
        let ghost goal = model_children(b, all, offset as int, into@.children);
        let mut children = node.children();
        proof {
            lemma_node_children_bounds(b, offset as int);
            assert(all.skip(0) =~= all);
        }
        let ghost mut done: int = 0;
        loop
            invariant
                b == node.blob(),
                children.blob() == b,
                offset == node.spec_offset(),
                offset + 4 <= b.len(),
                0 <= done <= all.len(),
                children.remaining() == all.skip(done),
                forall|i: int|
                    0 <= i < all.len() ==> (#[trigger] all[i] matches Ok(o) ==> offset < o && o
                        + 4 <= b.len()),
                into@.name == old(into)@.name,
                into@.properties == old(into)@.properties,
                goal == model_children(b, all, offset as int, old(into)@.children),
                all == node_children(b, offset as int),
                model_children(b, children.remaining(), offset as int, into@.children) == goal,
            decreases children.remaining().len(),
        {
            proof {
                lemma_model_children_unfold(
                    b,
                    children.remaining(),
                    offset as int,
                    into@.children,
                );
            }
            match children.next() {
                None => {
                    return Ok(());
                },
                Some(Err(e)) => {
                    return Err(e);
                },
                Some(Ok(child)) => {
                    proof {
                        assert(all.skip(done)[0] == all[done]);
                        assert(all.skip(done).skip(1) =~= all.skip(done + 1));
                    }
                    match DeviceTreeNode::try_from(child) {
                        Err(e) => {
                            return Err(e);
                        },
                        Ok(c) => {
                            into.add_child(c);
                        },
                    }
                    proof {
                        done = done + 1;
                    }
                },
            }
        }
    }
}

/// A builder for creating [`DeviceTreeNode`]s.
#[derive(Debug)]
pub struct DeviceTreeNodeBuilder {
    node: DeviceTreeNode,
}

impl View for DeviceTreeNodeBuilder {
    type V = NodeView;

    closed spec fn view(&self) -> NodeView {
        self.node@
    }
}

impl Default for DeviceTreeNodeBuilder {
    fn default() -> (r: Self)
        ensures
            r@ == (NodeView {
                name: Seq::empty(),
                properties: Seq::empty(),
                children: Seq::empty(),
            }),
    {
        Self { node: DeviceTreeNode::default() }
    }
}

impl DeviceTreeNodeBuilder {
    fn new(name: &str) -> (r: Self)
        ensures
            r@ == (NodeView { name: name@, properties: Seq::empty(), children: Seq::empty() }),
    {
        Self { node: DeviceTreeNode::new(name) }
    }

    /// Adds a property to the node.
    #[must_use]
    pub fn property(self, property: DeviceTreeProperty) -> (r: Self)
        ensures
            r@ == (NodeView {
                properties: insert_entry(self@.properties, property@.name, property@),
                ..self@
            }),
    {
        let mut b = self;
        b.node.add_property(property);
        b
    }

    /// Adds a child to the node.
    #[must_use]
    pub fn child(self, child: DeviceTreeNode) -> (r: Self)
        ensures
            r@ == (NodeView {
                children: insert_entry(self@.children, child@.name, child@),
                ..self@
            }),
    {
        let mut b = self;
        b.node.add_child(child);
        b
    }

    /// Builds the `DeviceTreeNode`.
    #[must_use]
    pub fn build(self) -> (r: DeviceTreeNode)
        ensures
            r@ == self@,
    {
        self.node
    }
}

} // verus!
