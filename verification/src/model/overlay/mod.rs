//! Applying device tree overlays.
//!
//! An overlay is a tree whose root holds fragments. Each fragment names a
//! node of the base tree and holds a node `__overlay__` that is merged
//! into it. The phandles of the overlay are renumbered on the way, so that
//! none collides with a phandle of the base tree.

pub mod error;

pub use error::{OverlayError, OverlayErrorKind, OverlayFault};

use crate::bytes::{be_u32, push_be_u32, read_be_u32, str_eq, u32_be};
use crate::model::entries::{entry_value, insert_entry};
use crate::model::property::{bytes_as_str, bytes_as_u32};
use crate::model::{
    graft, reach_path, DeviceTree, DeviceTreeNode, DeviceTreeProperty, NodeView, PropertyView,
    TreeView,
};
use crate::path::segments_from;
use vstd::prelude::*;
use vstd::string::StringExecFns;
use vstd::utf8::encode_utf8;

verus! {

/// The phandles of an overlay while it is applied: the value that the next
/// renumbered node gets, and the pairs of old and new value of the nodes
/// renumbered so far, in their order.
pub ghost struct Phandles {
    pub next: u32,
    pub map: Seq<(u32, u32)>,
}

/// The number after `v`; after the largest number comes zero.
pub open spec fn successor(v: u32) -> u32 {
    if v == u32::MAX {
        0
    } else {
        (v + 1) as u32
    }
}

/// The value that stands for `v` after renumbering: the new value of the
/// first pair whose old value is `v`, and `v` itself where there is none.
pub open spec fn renumbered(map: Seq<(u32, u32)>, v: u32) -> u32
    decreases map.len(),
{
    if map.len() == 0 {
        v
    } else if map[0].0 == v {
        map[0].1
    } else {
        renumbered(map.skip(1), v)
    }
}

/// The cells of `value` from `at` on, each renumbered.
pub open spec fn fixup_cells(map: Seq<(u32, u32)>, value: Seq<u8>, at: int) -> Seq<u8>
    decreases value.len() - at,
{
    if at < 0 || at + 4 > value.len() {
        Seq::empty()
    } else {
        u32_be(renumbered(map, be_u32(value, at))) + fixup_cells(map, value, at + 4)
    }
}

/// A property value after renumbering: every 32-bit cell that holds the
/// old value of a renumbered phandle holds the new one. A value whose
/// length is no multiple of four stays as it is.
pub open spec fn fixup_value(map: Seq<(u32, u32)>, value: Seq<u8>) -> Seq<u8> {
    if value.len() % 4 != 0 {
        value
    } else {
        fixup_cells(map, value, 0)
    }
}

/// A property after renumbering.
pub open spec fn fixup_prop(map: Seq<(u32, u32)>, p: PropertyView) -> PropertyView {
    PropertyView { name: p.name, value: fixup_value(map, p.value) }
}

/// Properties after renumbering, each in its place and under its key.
pub open spec fn fixup_props(map: Seq<(u32, u32)>, props: Seq<(Seq<char>, PropertyView)>) -> Seq<
    (Seq<char>, PropertyView),
> {
    Seq::new(props.len(), |i: int| (props[i].0, fixup_prop(map, props[i].1)))
}

/// The phandle of a node: the value of its property `phandle`, which has
/// to be four bytes long.
pub open spec fn phandle_of(n: NodeView) -> Option<Result<u32, ()>> {
    match entry_value(n.properties, "phandle"@) {
        None => None,
        Some(p) => Some(bytes_as_u32(p.value)),
    }
}

/// A corrupted phandle at the node named `name`.
pub open spec fn corrupted(name: Seq<char>) -> OverlayFault {
    OverlayFault { kind: OverlayErrorKind::CorruptedPhandle, fragment: name }
}

/// What a scan for the largest phandle has found: the largest so far, and
/// the corrupted phandle met last.
pub ghost struct Scan {
    pub max: u32,
    pub fault: Option<OverlayFault>,
}

/// The scan after the node `n` and all below it, each node before its
/// children.
pub open spec fn scan_node(n: NodeView, s: Scan) -> Scan
    decreases n,
{
    let here = match phandle_of(n) {
        None => s,
        Some(Err(_)) => Scan { max: s.max, fault: Some(corrupted(n.name)) },
        Some(Ok(v)) => Scan {
            max: if v > s.max {
                v
            } else {
                s.max
            },
            fault: s.fault,
        },
    };
    scan_children(n.children, 0, here)
}

/// The scan after the nodes of `children` from position `at` on.
pub open spec fn scan_children(children: Seq<(Seq<char>, NodeView)>, at: int, s: Scan) -> Scan
    decreases children, children.len() - at,
{
    if at < 0 || at >= children.len() {
        s
    } else {
        scan_children(children, at + 1, scan_node(children[at].1, s))
    }
}

/// The phandles with which an overlay onto the tree below `root` starts:
/// nothing renumbered yet, and the next value one past the largest phandle
/// of the tree. Every phandle of the tree has to be four bytes long.
pub open spec fn initial_phandles(root: NodeView) -> Result<Phandles, OverlayFault> {
    let s = scan_node(root, Scan { max: 0, fault: None });
    match s.fault {
        Some(f) => Err(f),
        None => Ok(Phandles { next: successor(s.max), map: Seq::empty() }),
    }
}

/// The node `n` after renumbering, with all below it, and the phandles
/// after that. A node with a phandle gets the next value, and its pair is
/// recorded, before its properties are renumbered and then its children,
/// in their order.
pub open spec fn fixup_node_spec(n: NodeView, ph: Phandles) -> Result<(NodeView, Phandles), OverlayFault>
    decreases n, 0nat,
{
    match phandle_of(n) {
        Some(Err(_)) => Err(corrupted(n.name)),
        own => {
            let ph1 = match own {
                Some(Ok(v)) => Phandles { next: successor(ph.next), map: ph.map.push((v, ph.next)) },
                _ => ph,
            };
            let props1 = match own {
                Some(Ok(v)) => insert_entry(
                    n.properties,
                    "phandle"@,
                    PropertyView {
                        name: entry_value(n.properties, "phandle"@).unwrap().name,
                        value: u32_be(ph.next),
                    },
                ),
                _ => n.properties,
            };
            match fixup_children_spec(n.children, 0, Seq::empty(), ph1) {
                Err(f) => Err(f),
                Ok((children, ph2)) => Ok(
                    (
                        NodeView { name: n.name, properties: fixup_props(ph1.map, props1), children },
                        ph2,
                    ),
                ),
            }
        },
    }
}

/// The nodes of `children` from position `at` on after renumbering, put
/// after `done` under their keys, and the phandles after that.
pub open spec fn fixup_children_spec(
    children: Seq<(Seq<char>, NodeView)>,
    at: int,
    done: Seq<(Seq<char>, NodeView)>,
    ph: Phandles,
) -> Result<(Seq<(Seq<char>, NodeView)>, Phandles), OverlayFault>
    decreases children, children.len() - at,
{
    if at < 0 || at >= children.len() {
        Ok((done, ph))
    } else {
        match fixup_node_spec(children[at].1, ph) {
            Err(f) => Err(f),
            Ok((c, ph1)) => fixup_children_spec(
                children,
                at + 1,
                done.push((children[at].0, c)),
                ph1,
            ),
        }
    }
}

/// The path that a fragment names: its property `target-path`, as text.
pub open spec fn target_path(fragment: NodeView) -> Result<Seq<char>, OverlayFault> {
    match entry_value(fragment.properties, "target-path"@) {
        None => Err(
            OverlayFault { kind: OverlayErrorKind::TargetPathNotFound, fragment: fragment.name },
        ),
        Some(p) => match bytes_as_str(p.value) {
            Err(_) => Err(
                OverlayFault { kind: OverlayErrorKind::TargetPathInvalid, fragment: fragment.name },
            ),
            Ok(path) => Ok(path),
        },
    }
}

/// The first of `children` from position `at` on that is named `name`.
pub open spec fn first_named(children: Seq<(Seq<char>, NodeView)>, at: int, name: Seq<char>) -> Option<
    NodeView,
>
    decreases children.len() - at,
{
    if at < 0 || at >= children.len() {
        None
    } else if children[at].1.name == name {
        Some(children[at].1)
    } else {
        first_named(children, at + 1, name)
    }
}

/// The number of nodes in the tree below `n`, `n` included.
pub open spec fn node_size(n: NodeView) -> nat
    decreases n,
{
    1 + children_size(n.children, 0)
}

/// The number of nodes in the trees below `children` from position `at`
/// on.
pub open spec fn children_size(children: Seq<(Seq<char>, NodeView)>, at: int) -> nat
    decreases children, children.len() - at,
{
    if at < 0 || at >= children.len() {
        0
    } else {
        node_size(children[at].1) + children_size(children, at + 1)
    }
}

/// Renumbering keeps the number of nodes.
pub proof fn lemma_fixup_keeps_size(n: NodeView, ph: Phandles)
    ensures
        fixup_node_spec(n, ph) matches Ok((m, _)) ==> node_size(m) == node_size(n),
    decreases n, 0nat,
{
    match phandle_of(n) {
        Some(Err(_)) => {},
        own => {
            let ph1 = match own {
                Some(Ok(v)) => Phandles { next: successor(ph.next), map: ph.map.push((v, ph.next)) },
                _ => ph,
            };
            lemma_fixup_children_keep_size(n.children, 0, Seq::empty(), ph1);
        },
    }
}

/// Renumbering children keeps the number of nodes below them.
pub proof fn lemma_fixup_children_keep_size(
    children: Seq<(Seq<char>, NodeView)>,
    at: int,
    done: Seq<(Seq<char>, NodeView)>,
    ph: Phandles,
)
    requires
        0 <= at <= children.len(),
        done.len() == at,
    ensures
        fixup_children_spec(children, at, done, ph) matches Ok((all, _)) ==> all.len()
            == children.len() && children_size(all, 0) == children_size(done, 0) + children_size(
            children,
            at,
        ),
    decreases children, children.len() - at,
{
    if at < children.len() {
        match fixup_node_spec(children[at].1, ph) {
            Err(f) => {},
            Ok((c, ph1)) => {
                lemma_fixup_keeps_size(children[at].1, ph);
                let done1 = done.push((children[at].0, c));
                lemma_fixup_children_keep_size(children, at + 1, done1, ph1);
                lemma_children_size_push(done, (children[at].0, c), 0);
            },
        }
    }
}

/// A node put last adds its size.
pub proof fn lemma_children_size_push(
    children: Seq<(Seq<char>, NodeView)>,
    last: (Seq<char>, NodeView),
    at: int,
)
    requires
        0 <= at <= children.len(),
    ensures
        children_size(children.push(last), at) == children_size(children, at) + node_size(last.1),
    decreases children.len() - at,
{
    let all = children.push(last);
    if at < children.len() {
        assert(all[at] == children[at]);
        lemma_children_size_push(children, last, at + 1);
    } else {
        assert(all[at] == last);
        assert(children_size(all, at + 1) == 0);
    }
}

/// What a merge has come to: the node merged into, the phandles, and the
/// error that has ended the merge, if one has.
pub ghost struct Merged {
    pub node: NodeView,
    pub phandles: Phandles,
    pub fault: Option<OverlayFault>,
}

/// The properties of `existing` after those of `new` from position `at` on
/// have been merged into them: each renumbered, and inserted under its
/// name.
pub open spec fn merge_props(
    existing: Seq<(Seq<char>, PropertyView)>,
    new: Seq<(Seq<char>, PropertyView)>,
    at: int,
    map: Seq<(u32, u32)>,
) -> Seq<(Seq<char>, PropertyView)>
    decreases new.len() - at,
{
    if at < 0 || at >= new.len() {
        existing
    } else {
        merge_props(
            insert_entry(existing, new[at].1.name, fixup_prop(map, new[at].1)),
            new,
            at + 1,
            map,
        )
    }
}

/// The node `existing` after `new` has been merged into it. The
/// properties of `new` are renumbered and inserted. Then each child of
/// `new` is renumbered with all below it; it is merged into the child of
/// `existing` that is stored under its name, or inserted where there is
/// none. The first error ends the merge, and what was merged before stays.
pub open spec fn merge_spec(existing: NodeView, new: NodeView, ph: Phandles) -> Merged
    decreases node_size(new), 0nat,
{
    merge_children(
        NodeView {
            properties: merge_props(existing.properties, new.properties, 0, ph.map),
            ..existing
        },
        new.children,
        0,
        ph,
    )
}

/// The node `existing` after the nodes of `children` from position `at` on
/// have been merged into it or inserted.
pub open spec fn merge_children(
    existing: NodeView,
    children: Seq<(Seq<char>, NodeView)>,
    at: int,
    ph: Phandles,
) -> Merged
    decreases children_size(children, at), 1nat,
{
    if at < 0 || at >= children.len() {
        Merged { node: existing, phandles: ph, fault: None }
    } else {
        match fixup_node_spec(children[at].1, ph) {
            Err(f) => Merged { node: existing, phandles: ph, fault: Some(f) },
            Ok((child, ph1)) => {
                proof {
                    lemma_fixup_keeps_size(children[at].1, ph);
                }
                match entry_value(existing.children, child.name) {
                    None => merge_children(
                        NodeView {
                            children: insert_entry(existing.children, child.name, child),
                            ..existing
                        },
                        children,
                        at + 1,
                        ph1,
                    ),
                    Some(below) => {
                        let m = merge_spec(below, child, ph1);
                        let merged = NodeView {
                            children: insert_entry(existing.children, child.name, m.node),
                            ..existing
                        };
                        if m.fault is Some {
                            Merged { node: merged, phandles: m.phandles, fault: m.fault }
                        } else {
                            merge_children(merged, children, at + 1, m.phandles)
                        }
                    },
                }
            },
        }
    }
}

/// The tree below `root` after `fragment` has been applied to it.
pub open spec fn apply_fragment(root: NodeView, fragment: NodeView, ph: Phandles) -> Merged {
    match target_path(fragment) {
        Err(f) => Merged { node: root, phandles: ph, fault: Some(f) },
        Ok(path) => match reach_path(root, encode_utf8(path)) {
            None => Merged {
                node: root,
                phandles: ph,
                fault: Some(
                    OverlayFault {
                        kind: OverlayErrorKind::TargetNodeNotFound,
                        fragment: fragment.name,
                    },
                ),
            },
            Some(target) => match first_named(fragment.children, 0, "__overlay__"@) {
                None => Merged {
                    node: root,
                    phandles: ph,
                    fault: Some(
                        OverlayFault {
                            kind: OverlayErrorKind::SourceNodeNotFound,
                            fragment: fragment.name,
                        },
                    ),
                },
                Some(source) => {
                    let m = merge_spec(target, source, ph);
                    Merged {
                        node: graft(root, segments_from(encode_utf8(path), 0), m.node),
                        phandles: m.phandles,
                        fault: m.fault,
                    }
                },
            },
        },
    }
}

/// The tree below `root` after the fragments from position `at` on have
/// been applied to it, one after the other. The first error ends it, and
/// what was applied before stays.
pub open spec fn apply_fragments(
    root: NodeView,
    fragments: Seq<(Seq<char>, NodeView)>,
    at: int,
    ph: Phandles,
) -> Merged
    decreases fragments.len() - at,
{
    if at < 0 || at >= fragments.len() {
        Merged { node: root, phandles: ph, fault: None }
    } else {
        let m = apply_fragment(root, fragments[at].1, ph);
        if m.fault is Some {
            m
        } else {
            apply_fragments(m.node, fragments, at + 1, m.phandles)
        }
    }
}

/// What applying an overlay comes to: the tree after it, and the error
/// that has ended it, if one has.
pub ghost struct Applied {
    pub tree: TreeView,
    pub fault: Option<OverlayFault>,
}

/// The tree `base` after the overlay `overlay` has been applied to it.
pub open spec fn apply_overlay_spec(base: TreeView, overlay: TreeView) -> Applied {
    match initial_phandles(base.root) {
        Err(f) => Applied { tree: base, fault: Some(f) },
        Ok(ph) => {
            let m = apply_fragments(base.root, overlay.root.children, 0, ph);
            Applied { tree: TreeView { root: m.node, ..base }, fault: m.fault }
        },
    }
}

/// Whether `fragment` fails before anything of it is merged into the tree
/// below `root`: it names no path, or the path leads to no node, or it
/// holds no node `__overlay__`.
pub open spec fn fails_before_merge(root: NodeView, fragment: NodeView) -> bool {
    match target_path(fragment) {
        Err(_) => true,
        Ok(path) => reach_path(root, encode_utf8(path)) is None || first_named(
            fragment.children,
            0,
            "__overlay__"@,
        ) is None,
    }
}

/// The overlay `overlay` without its fragments from position `k` on.
pub open spec fn first_fragments(overlay: TreeView, k: int) -> TreeView {
    TreeView {
        root: NodeView { children: overlay.root.children.take(k), ..overlay.root },
        ..overlay
    }
}

/// Fragments that are applied without an error leave the tree to the
/// fragments after them.
pub proof fn lemma_fragments_in_turn(
    root: NodeView,
    fragments: Seq<(Seq<char>, NodeView)>,
    at: int,
    k: int,
    ph: Phandles,
)
    requires
        0 <= at <= k <= fragments.len(),
        apply_fragments(root, fragments.take(k), at, ph).fault is None,
    ensures
        apply_fragments(root, fragments, at, ph) == apply_fragments(
            apply_fragments(root, fragments.take(k), at, ph).node,
            fragments,
            k,
            apply_fragments(root, fragments.take(k), at, ph).phandles,
        ),
    decreases k - at,
{
    if at < k {
        assert(fragments.take(k)[at] == fragments[at]);
        let m = apply_fragment(root, fragments[at].1, ph);
        lemma_fragments_in_turn(m.node, fragments, at + 1, k, m.phandles);
    }
}

/// An overlay is not rolled back: where a fragment fails before anything
/// of it is merged, the overlay ends with an error, and the tree is what
/// the fragments before that one have made of it.
pub proof fn lemma_overlay_not_rolled_back(base: TreeView, overlay: TreeView, k: int)
    requires
        0 <= k < overlay.root.children.len(),
        apply_overlay_spec(base, first_fragments(overlay, k)).fault is None,
        fails_before_merge(
            apply_overlay_spec(base, first_fragments(overlay, k)).tree.root,
            overlay.root.children[k].1,
        ),
    ensures
        apply_overlay_spec(base, overlay).fault is Some,
        apply_overlay_spec(base, overlay).tree == apply_overlay_spec(
            base,
            first_fragments(overlay, k),
        ).tree,
{
    let fragments = overlay.root.children;
    let ph = initial_phandles(base.root)->Ok_0;
    lemma_fragments_in_turn(base.root, fragments, 0, k, ph);
}

/// What an error that may have been met says.
pub open spec fn fault_of(e: Option<OverlayError>) -> Option<OverlayFault> {
    match e {
        Some(e) => Some(e@),
        None => None,
    }
}

/// A node is no larger than the trees that it stands among.
pub proof fn lemma_children_size_member(children: Seq<(Seq<char>, NodeView)>, at: int, i: int)
    requires
        0 <= at <= i < children.len(),
    ensures
        node_size(children[i].1) <= children_size(children, at),
    decreases i - at,
{
    if at < i {
        lemma_children_size_member(children, at + 1, i);
    }
}

/// A node grafted where it already stands changes nothing.
pub proof fn lemma_graft_same(n: NodeView, names: Seq<Seq<u8>>)
    requires
        crate::model::reach(n, names) is Some,
    ensures
        graft(n, names, crate::model::reach(n, names).unwrap()) == n,
    decreases names.len(),
{
    if names.len() > 0 {
        let i = crate::model::segment_index(n.children, names[0]).unwrap();
        crate::model::entries::lemma_entry_index(
            n.children,
            vstd::utf8::decode_utf8(names[0]),
        );
        lemma_graft_same(n.children[i].1, names.skip(1));
        assert(n.children.update(i, (n.children[i].0, n.children[i].1)) =~= n.children);
    }
}

/// The phandles of an overlay while it is applied.
pub struct PhandleMap {
    next_phandle: u32,
    map: Vec<(u32, u32)>,
}

impl View for PhandleMap {
    type V = Phandles;

    closed spec fn view(&self) -> Phandles {
        Phandles { next: self.next_phandle, map: self.map@ }
    }
}

impl PhandleMap {
    /// The phandles with which an overlay onto `base` starts.
    ///
    /// # Errors
    ///
    /// Returns an [`OverlayErrorKind::CorruptedPhandle`] if a phandle of
    /// `base` is not four bytes long, with the name of the last such node.
    pub fn new(base: &DeviceTree) -> (r: Result<Self, OverlayError>)
        ensures
            match r {
                Ok(m) => initial_phandles(base@.root) == Ok::<Phandles, OverlayFault>(m@),
                Err(e) => initial_phandles(base@.root) == Err::<Phandles, OverlayFault>(e@),
            },
    {
        let mut max_phandle: u32 = 0;
        let mut error: Option<OverlayError> = None;
        Self::scan(base.root(), &mut max_phandle, &mut error);
        match error {
            Some(e) => Err(e),
            None => {
                let next_phandle = if max_phandle == u32::MAX {
                    0
                } else {
                    max_phandle + 1
                };
                Ok(Self { next_phandle, map: Vec::new() })
            },
        }
    }

    /// Visits `node` and all below it, each node before its children, and
    /// keeps the largest phandle and the corrupted phandle met last.
    fn scan(node: &DeviceTreeNode, max_phandle: &mut u32, error: &mut Option<OverlayError>)
        ensures
            (Scan { max: *final(max_phandle), fault: fault_of(*final(error)) }) == scan_node(
                node@,
                Scan { max: *old(max_phandle), fault: fault_of(*old(error)) },
            ),
        decreases node@,
    {
        match node.property("phandle") {
            None => {},
            Some(phandle) => match phandle.as_u32() {
                Err(_) => {
                    *error = Some(
                        OverlayError::new(
                            OverlayErrorKind::CorruptedPhandle,
                            String::from_str(node.name()),
                        ),
                    );
                },
                Ok(phandle) => {
                    if phandle > *max_phandle {
                        *max_phandle = phandle;
                    }
                },
            },
        }
        let count = node.child_count();
        let ghost goal = scan_node(
            node@,
            Scan { max: *old(max_phandle), fault: fault_of(*old(error)) },
        );
        let mut i: usize = 0;
        while i < count
            invariant
                count == node@.children.len(),
                i <= count,
                scan_children(
                    node@.children,
                    i as int,
                    Scan { max: *max_phandle, fault: fault_of(*error) },
                ) == goal,
            decreases count - i,
        {
            match node.child_at(i) {
                Some(child) => {
                    Self::scan(child, max_phandle, error);
                },
                None => {},
            }
            i += 1;
        }
    }

    /// The value that stands for `value` after renumbering.
    pub fn renumber(&self, value: u32) -> (r: u32)
        ensures
            r == renumbered(self@.map, value),
    {
        let mut i: usize = 0;
        assert(self.map@.skip(0) =~= self.map@);
        while i < self.map.len()
            invariant
                i <= self.map@.len(),
                renumbered(self.map@.skip(i as int), value) == renumbered(self.map@, value),
            decreases self.map@.len() - i,
        {
            let (old_value, new_value) = self.map[i];
            proof {
                let rest = self.map@.skip(i as int);
                assert(rest[0] == self.map@[i as int]);
                assert(rest.skip(1) =~= self.map@.skip(i + 1));
            }
            if old_value == value {
                return new_value;
            }
            i += 1;
        }
        value
    }

    /// Renumbers the phandles that the value of `prop` holds.
    pub fn fixup_property(&self, prop: &mut DeviceTreeProperty)
        ensures
            final(prop)@ == fixup_prop(self@.map, old(prop)@),
    {
        let value = prop.value();
        let len = value.len();
        if len % 4 != 0 {
            return ;
        }
        let mut new_value: Vec<u8> = Vec::new();
        let mut at: usize = 0;
        while at < len
            invariant
                len == value@.len(),
                len % 4 == 0,
                at % 4 == 0,
                at <= len,
                value@ == old(prop)@.value,
                new_value@ + fixup_cells(self@.map, value@, at as int) == fixup_cells(
                    self@.map,
                    value@,
                    0,
                ),
            decreases len - at,
        {
            let ghost before = new_value@;
            let cell = read_be_u32(value, at).unwrap();
            push_be_u32(&mut new_value, self.renumber(cell));
            proof {
                let rest = fixup_cells(self@.map, value@, at + 4);
                assert(new_value@ + rest =~= before + (u32_be(renumbered(self@.map, cell)) + rest));
            }
            at = at + 4;
        }
        assert(new_value@ =~= fixup_cells(self@.map, value@, 0));
        prop.set_value(new_value);
    }

    /// Renumbers `node` and all below it.
    ///
    /// # Errors
    ///
    /// Returns an [`OverlayErrorKind::CorruptedPhandle`] at the first node
    /// whose phandle is not four bytes long. What `node` holds then is a
    /// part of the work, fit to be thrown away.
    pub fn fixup_node(&mut self, node: &mut DeviceTreeNode) -> (r: Result<(), OverlayError>)
        ensures
            match r {
                Ok(()) => fixup_node_spec(old(node)@, old(self)@) == Ok::<
                    (NodeView, Phandles),
                    OverlayFault,
                >((final(node)@, final(self)@)),
                Err(e) => fixup_node_spec(old(node)@, old(self)@) == Err::<
                    (NodeView, Phandles),
                    OverlayFault,
                >(e@),
            },
        decreases old(node)@,
    {
        let ghost n0 = node@;
        let ghost ph0 = self@;
        let own = match node.property("phandle") {
            None => None,
            Some(phandle) => match phandle.as_u32() {
                Err(_) => {
                    return Err(
                        OverlayError::new(
                            OverlayErrorKind::CorruptedPhandle,
                            String::from_str(node.name()),
                        ),
                    );
                },
                Ok(v) => Some(v),
            },
        };
        match own {
            None => {},
            Some(phandle) => {
                let new_phandle = self.next_phandle;
                self.next_phandle = if new_phandle == u32::MAX {
                    0
                } else {
                    new_phandle + 1
                };
                self.map.push((phandle, new_phandle));
                let mut bytes: Vec<u8> = Vec::new();
                push_be_u32(&mut bytes, new_phandle);
                assert(bytes@ =~= u32_be(new_phandle));
                let node_name = String::from_str(node.name());
                match node.property_mut("phandle") {
                    None => {
                        return Err(OverlayError::new(OverlayErrorKind::PhandleNotFound, node_name));
                    },
                    Some(property) => {
                        property.set_value(bytes);
                    },
                }
            },
        }
        let ghost ph1 = self@;
        let ghost props1 = node@.properties;

        let props = node.property_count();
        let mut i: usize = 0;
        while i < props
            invariant
                props == props1.len(),
                i <= props,
                self@ == ph1,
                node@.name == n0.name,
                node@.children == n0.children,
                node@.properties.len() == props1.len(),
                forall|k: int|
                    0 <= k < props ==> (#[trigger] node@.properties[k]) == if k < i {
                        (props1[k].0, fixup_prop(ph1.map, props1[k].1))
                    } else {
                        props1[k]
                    },
            decreases props - i,
        {
            match node.properties_mut(i) {
                Some(property) => {
                    self.fixup_property(property);
                },
                None => {},
            }
            i += 1;
        }
        assert(node@.properties =~= fixup_props(ph1.map, props1));

        let children = node.child_count();
        let ghost goal = fixup_children_spec(n0.children, 0, Seq::empty(), ph1);
        let mut j: usize = 0;
        assert(node@.children.take(0) =~= Seq::empty());
        while j < children
            invariant
                n0 == old(node)@,
                ph0 == old(self)@,
                children == n0.children.len(),
                j <= children,
                node@.name == n0.name,
                node@.properties == fixup_props(ph1.map, props1),
                node@.children.len() == n0.children.len(),
                forall|k: int| j <= k < children ==> node@.children[k] == n0.children[k],
                fixup_children_spec(n0.children, j as int, node@.children.take(j as int), self@)
                    == goal,
                goal == fixup_children_spec(n0.children, 0, Seq::empty(), ph1),
                fixup_node_spec(n0, ph0) == match goal {
                    Err(f) => Err::<(NodeView, Phandles), OverlayFault>(f),
                    Ok((children, ph2)) => Ok(
                        (
                            NodeView {
                                name: n0.name,
                                properties: fixup_props(ph1.map, props1),
                                children,
                            },
                            ph2,
                        ),
                    ),
                },
            decreases children - j,
        {
            let ghost before = node@.children;
            match node.children_mut(j) {
                Some(child) => {
                    match self.fixup_node(child) {
                        Err(e) => {
                            return Err(e);
                        },
                        Ok(()) => {},
                    }
                },
                None => {},
            }
            proof {
                assert(node@.children.take(j + 1) =~= before.take(j as int).push(
                    (n0.children[j as int].0, node@.children[j as int].1),
                ));
            }
            j += 1;
        }
        assert(node@.children.take(children as int) =~= node@.children);
        Ok(())
    }
}

/// Merges `new` into `existing`.
///
/// # Errors
///
/// Returns the first error met while renumbering a child of `new`; what
/// was merged before stays in `existing`.
pub fn merge_nodes(
    phandle_map: &mut PhandleMap,
    existing: &mut DeviceTreeNode,
    new: &DeviceTreeNode,
) -> (r: Result<(), OverlayError>)
    ensures
        final(existing)@ == merge_spec(old(existing)@, new@, old(phandle_map)@).node,
        match r {
            Ok(()) => merge_spec(old(existing)@, new@, old(phandle_map)@).fault is None && final(phandle_map)@ == merge_spec(old(existing)@, new@, old(phandle_map)@).phandles,
            Err(e) => merge_spec(old(existing)@, new@, old(phandle_map)@).fault == Some(e@),
        },
    decreases node_size(new@),
{
    let ghost e0 = existing@;
    let ghost ph0 = phandle_map@;
    let props = new.property_count();
    let mut i: usize = 0;
    while i < props
        invariant
            props == new@.properties.len(),
            i <= props,
            phandle_map@ == ph0,
            existing@.name == e0.name,
            existing@.children == e0.children,
            merge_props(existing@.properties, new@.properties, i as int, ph0.map) == merge_props(
                e0.properties,
                new@.properties,
                0,
                ph0.map,
            ),
        decreases props - i,
    {
        match new.property_at(i) {
            Some(property) => {
                let mut prop = property.clone();
                phandle_map.fixup_property(&mut prop);
                existing.add_property(prop);
            },
            None => {},
        }
        i += 1;
    }
    let ghost e1 = existing@;
    let ghost goal = merge_children(e1, new@.children, 0, ph0);
    assert(e1 == (NodeView {
        properties: merge_props(e0.properties, new@.properties, 0, ph0.map),
        ..e0
    }));

    let children = new.child_count();
    let mut j: usize = 0;
    while j < children
        invariant
            e0 == old(existing)@,
            ph0 == old(phandle_map)@,
            children == new@.children.len(),
            j <= children,
            goal == merge_spec(e0, new@, ph0),
            merge_children(existing@, new@.children, j as int, phandle_map@) == goal,
        decreases children - j,
    {
        match new.child_at(j) {
            Some(node) => {
                let mut child = node.clone();
                proof {
                    lemma_fixup_keeps_size(node@, phandle_map@);
                    lemma_children_size_member(new@.children, 0, j as int);
                }
                match phandle_map.fixup_node(&mut child) {
                    Err(e) => {
                        return Err(e);
                    },
                    Ok(()) => {},
                }
                let found = match existing.child_mut(child.name()) {
                    Some(existing_child) => {
                        match merge_nodes(phandle_map, existing_child, &child) {
                            Err(e) => {
                                return Err(e);
                            },
                            Ok(()) => {},
                        }
                        true
                    },
                    None => false,
                };
                if !found {
                    existing.add_child(child);
                }
            },
            None => {},
        }
        j += 1;
    }
    Ok(())
}

/// The first child of `fragment` that is named `__overlay__`.
fn overlay_node(fragment: &DeviceTreeNode) -> (r: Option<&DeviceTreeNode>)
    ensures
        match r {
            Some(n) => first_named(fragment@.children, 0, "__overlay__"@) == Some(n@),
            None => first_named(fragment@.children, 0, "__overlay__"@) is None,
        },
{
    let count = fragment.child_count();
    let mut i: usize = 0;
    while i < count
        invariant
            count == fragment@.children.len(),
            i <= count,
            first_named(fragment@.children, i as int, "__overlay__"@) == first_named(
                fragment@.children,
                0,
                "__overlay__"@,
            ),
        decreases count - i,
    {
        match fragment.child_at(i) {
            Some(child) => {
                if str_eq(child.name(), "__overlay__") {
                    return Some(child);
                }
            },
            None => {},
        }
        i += 1;
    }
    None
}

impl DeviceTree {
    /// Applies a device tree overlay to this device tree.
    ///
    /// The fragments of the overlay, which are the children of its root,
    /// are applied in their order. Nothing is rolled back: after an error,
    /// the tree holds what was merged before it.
    ///
    /// # Errors
    ///
    /// Returns an error if a phandle of this tree or of the overlay is
    /// corrupted, or if a fragment is malformed, e.g. is missing a
    /// `target-path` or `__overlay__` node.
    pub fn apply_overlay(&mut self, overlay: &DeviceTree) -> (r: Result<(), OverlayError>)
        ensures
            final(self)@ == apply_overlay_spec(old(self)@, overlay@).tree,
            match r {
                Ok(()) => apply_overlay_spec(old(self)@, overlay@).fault is None,
                Err(e) => apply_overlay_spec(old(self)@, overlay@).fault == Some(e@),
            },
    {
        let mut phandle_map = match PhandleMap::new(self) {
            Err(e) => {
                return Err(e);
            },
            Ok(m) => m,
        };
        let ghost ph0 = phandle_map@;
        let ghost t0 = self@;
        let fragments = overlay.root();
        let count = fragments.child_count();
        let mut i: usize = 0;
        while i < count
            invariant
                t0 == old(self)@,
                count == overlay@.root.children.len(),
                fragments@ == overlay@.root,
                i <= count,
                self@.reservations == t0.reservations,
                initial_phandles(t0.root) == Ok::<Phandles, OverlayFault>(ph0),
                apply_fragments(self@.root, overlay@.root.children, i as int, phandle_map@)
                    == apply_fragments(t0.root, overlay@.root.children, 0, ph0),
            decreases count - i,
        {
            match fragments.child_at(i) {
                Some(fragment) => {
                    match self.apply_fragment(&mut phandle_map, fragment) {
                        Err(e) => {
                            return Err(e);
                        },
                        Ok(()) => {},
                    }
                },
                None => {},
            }
            i += 1;
        }
        Ok(())
    }

    /// Applies one fragment of an overlay.
    fn apply_fragment(&mut self, phandle_map: &mut PhandleMap, fragment: &DeviceTreeNode) -> (r:
        Result<(), OverlayError>)
        ensures
            final(self)@ == (TreeView {
                root: apply_fragment(old(self)@.root, fragment@, old(phandle_map)@).node,
                ..old(self)@
            }),
            match r {
                Ok(()) => apply_fragment(old(self)@.root, fragment@, old(phandle_map)@).fault
                    is None && final(phandle_map)@ == apply_fragment(
                    old(self)@.root,
                    fragment@,
                    old(phandle_map)@,
                ).phandles,
                Err(e) => apply_fragment(old(self)@.root, fragment@, old(phandle_map)@).fault
                    == Some(e@),
            },
    {
        let path = match fragment.property("target-path") {
            None => {
                return Err(
                    OverlayError::new(
                        OverlayErrorKind::TargetPathNotFound,
                        String::from_str(fragment.name()),
                    ),
                );
            },
            Some(property) => match property.as_str() {
                Err(_) => {
                    return Err(
                        OverlayError::new(
                            OverlayErrorKind::TargetPathInvalid,
                            String::from_str(fragment.name()),
                        ),
                    );
                },
                Ok(path) => path,
            },
        };
        let source = overlay_node(fragment);
        proof {
            if reach_path(self@.root, encode_utf8(path@)) is Some {
                lemma_graft_same(self@.root, segments_from(encode_utf8(path@), 0));
            }
        }
        let target_node = match self.find_node_mut(path) {
            None => {
                return Err(
                    OverlayError::new(
                        OverlayErrorKind::TargetNodeNotFound,
                        String::from_str(fragment.name()),
                    ),
                );
            },
            Some(node) => node,
        };
        match source {
            None => Err(
                OverlayError::new(
                    OverlayErrorKind::SourceNodeNotFound,
                    String::from_str(fragment.name()),
                ),
            ),
            Some(overlay_node) => merge_nodes(phandle_map, target_node, overlay_node),
        }
    }
}

} // verus!
