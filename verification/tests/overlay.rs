use ritm_device_tree::fdt::Fdt;
use ritm_device_tree::model::overlay::{OverlayErrorKind, PhandleMap};
use ritm_device_tree::model::{DeviceTree, DeviceTreeNode, DeviceTreeProperty};

/// A blob written by hand, token by token.
struct Blob {
    reservations: Vec<(u64, u64)>,
    structure: Vec<u8>,
    strings: Vec<u8>,
}

impl Blob {
    fn new() -> Self {
        Blob { reservations: Vec::new(), structure: Vec::new(), strings: Vec::new() }
    }

    fn pad(&mut self) {
        while self.structure.len() % 4 != 0 {
            self.structure.push(0);
        }
    }

    fn token(&mut self, value: u32) {
        self.structure.extend_from_slice(&value.to_be_bytes());
    }

    fn begin(&mut self, name: &str) {
        self.token(1);
        self.structure.extend_from_slice(name.as_bytes());
        self.structure.push(0);
        self.pad();
    }

    fn end(&mut self) {
        self.token(2);
    }

    fn name_offset(&mut self, name: &str) -> u32 {
        let mut at = 0;
        while at < self.strings.len() {
            let mut stop = at;
            while self.strings[stop] != 0 {
                stop += 1;
            }
            if &self.strings[at..stop] == name.as_bytes() {
                return at as u32;
            }
            at = stop + 1;
        }
        let offset = self.strings.len() as u32;
        self.strings.extend_from_slice(name.as_bytes());
        self.strings.push(0);
        offset
    }

    fn prop(&mut self, name: &str, value: &[u8]) {
        let offset = self.name_offset(name);
        self.token(3);
        self.token(value.len() as u32);
        self.token(offset);
        self.structure.extend_from_slice(value);
        self.pad();
    }

    fn finish(mut self) -> Vec<u8> {
        self.token(9);
        let off_rsv = 40u32;
        let off_struct = off_rsv + 16 * (self.reservations.len() as u32 + 1);
        let off_strings = off_struct + self.structure.len() as u32;
        let total = off_strings + self.strings.len() as u32;
        let mut out = Vec::new();
        for field in [
            0xd00d_feed,
            total,
            off_struct,
            off_strings,
            off_rsv,
            17,
            16,
            0,
            self.strings.len() as u32,
            self.structure.len() as u32,
        ] {
            out.extend_from_slice(&field.to_be_bytes());
        }
        for (address, size) in self.reservations.iter() {
            out.extend_from_slice(&address.to_be_bytes());
            out.extend_from_slice(&size.to_be_bytes());
        }
        out.extend_from_slice(&[0u8; 16]);
        out.extend_from_slice(&self.structure);
        out.extend_from_slice(&self.strings);
        out
    }
}

fn cell(v: u32) -> Vec<u8> {
    v.to_be_bytes().to_vec()
}

/// A base tree with the node `node1`, whose phandle is 1.
fn test_overlay_base_dtb() -> Vec<u8> {
    let mut b = Blob::new();
    b.begin("");
    b.begin("node1");
    b.prop("phandle", &cell(1));
    b.end();
    b.end();
    b.finish()
}

/// An overlay with one fragment for `/`: `node1` with phandle 1 and a
/// reference to itself, and `node2` with phandle 2 and a reference to
/// `node1`.
fn test_overlay_dtb() -> Vec<u8> {
    let mut b = Blob::new();
    b.begin("");
    b.begin("fragment@0");
    b.prop("target-path", b"/\0");
    b.begin("__overlay__");
    b.begin("node1");
    b.prop("phandle", &cell(1));
    b.prop("ref", &cell(1));
    b.end();
    b.begin("node2");
    b.prop("phandle", &cell(2));
    b.prop("link", &cell(1));
    b.end();
    b.end();
    b.end();
    b.end();
    b.finish()
}

/// What the overlay makes of the base tree: the phandles of the overlay
/// come after the largest phandle of the base tree, in the order in which
/// the nodes are met, and the references follow them.
fn test_overlay_merged_dtb() -> Vec<u8> {
    let mut b = Blob::new();
    b.begin("");
    b.begin("node1");
    b.prop("phandle", &cell(2));
    b.prop("ref", &cell(2));
    b.end();
    b.begin("node2");
    b.prop("phandle", &cell(3));
    b.prop("link", &cell(2));
    b.end();
    b.end();
    b.finish()
}

#[test]
fn test_apply_overlay() {
    let base_dtb = test_overlay_base_dtb();
    let overlay_dtb = test_overlay_dtb();
    let merged_dtb = test_overlay_merged_dtb();

    let base_fdt = Fdt::new(&base_dtb).unwrap();
    let mut base_tree = DeviceTree::from_fdt(&base_fdt).unwrap();

    let overlay_fdt = Fdt::new(&overlay_dtb).unwrap();
    let overlay_tree = DeviceTree::from_fdt(&overlay_fdt).unwrap();

    base_tree.apply_overlay(&overlay_tree).unwrap();

    let merged_fdt = Fdt::new(&merged_dtb).unwrap();
    let merged_tree = DeviceTree::from_fdt(&merged_fdt).unwrap();

    assert_eq!(base_tree, merged_tree);
}

fn base_tree() -> DeviceTree {
    DeviceTree::new(
        DeviceTreeNode::builder("")
            .child(
                DeviceTreeNode::builder("node1")
                    .property(DeviceTreeProperty::new("phandle", cell(1)))
                    .build(),
            )
            .build(),
    )
}

fn fragment(name: &str, path: &[u8], overlay: Option<DeviceTreeNode>) -> DeviceTreeNode {
    let mut b = DeviceTreeNode::builder(name)
        .property(DeviceTreeProperty::new("target-path", path.to_vec()));
    if let Some(node) = overlay {
        b = b.child(node);
    }
    b.build()
}

#[test]
fn overlay_renumbers_in_traversal_order() {
    let mut base = base_tree();
    let overlay = DeviceTree::new(
        DeviceTreeNode::builder("")
            .child(fragment(
                "fragment@0",
                b"/\0",
                Some(
                    DeviceTreeNode::builder("__overlay__")
                        .child(
                            DeviceTreeNode::builder("node1")
                                .property(DeviceTreeProperty::new("phandle", cell(1)))
                                .property(DeviceTreeProperty::new("ref", cell(1)))
                                .build(),
                        )
                        .child(
                            DeviceTreeNode::builder("node2")
                                .property(DeviceTreeProperty::new("phandle", cell(2)))
                                .property(DeviceTreeProperty::new("link", cell(1)))
                                .build(),
                        )
                        .build(),
                ),
            ))
            .build(),
    );
    base.apply_overlay(&overlay).unwrap();

    let root = base.root();
    assert_eq!(root.children().len(), 2);
    let node1 = root.child("node1").unwrap();
    assert_eq!(node1.property("phandle").unwrap().as_u32(), Ok(2));
    assert_eq!(node1.property("ref").unwrap().as_u32(), Ok(2));
    let node2 = root.child("node2").unwrap();
    assert_eq!(node2.property("phandle").unwrap().as_u32(), Ok(3));
    assert_eq!(node2.property("link").unwrap().as_u32(), Ok(2));
    // The merged node keeps its place, the new one comes last.
    assert_eq!(root.children()[0].name(), "node1");
    assert_eq!(root.children()[1].name(), "node2");
}

#[test]
fn overlay_is_not_rolled_back() {
    let mut base = base_tree();
    let overlay = DeviceTree::new(
        DeviceTreeNode::builder("")
            .child(fragment(
                "first",
                b"/node1\0",
                Some(
                    DeviceTreeNode::builder("__overlay__")
                        .property(DeviceTreeProperty::new("status", b"okay\0".to_vec()))
                        .build(),
                ),
            ))
            .child(fragment("second", b"/node1\0", None))
            .build(),
    );
    let error = base.apply_overlay(&overlay).unwrap_err();
    assert!(matches!(error.kind, OverlayErrorKind::SourceNodeNotFound));
    assert_eq!(error.fragment(), "second");
    assert_eq!(error.to_string(), "source node not found in fragment `second`");

    let node1 = base.root().child("node1").unwrap();
    assert_eq!(node1.property("status").unwrap().as_str(), Ok("okay"));
    assert_eq!(node1.property("phandle").unwrap().as_u32(), Ok(1));
}

#[test]
fn overlay_overwrites_a_property_in_place() {
    let mut base = DeviceTree::new(
        DeviceTreeNode::builder("")
            .property(DeviceTreeProperty::new("a", cell(1)))
            .property(DeviceTreeProperty::new("b", cell(2)))
            .build(),
    );
    let overlay = DeviceTree::new(
        DeviceTreeNode::builder("")
            .child(fragment(
                "fragment@0",
                b"/",
                Some(
                    DeviceTreeNode::builder("__overlay__")
                        .property(DeviceTreeProperty::new("a", cell(7)))
                        .property(DeviceTreeProperty::new("c", vec![1, 2, 3]))
                        .build(),
                ),
            ))
            .build(),
    );
    base.apply_overlay(&overlay).unwrap();
    let props = base.root().properties();
    assert_eq!(props.len(), 3);
    assert_eq!(props[0].name(), "a");
    assert_eq!(props[0].value(), &[0, 0, 0, 7]);
    assert_eq!(props[1].name(), "b");
    assert_eq!(props[2].name(), "c");
    assert_eq!(props[2].value(), &[1, 2, 3]);
}

#[test]
fn fragment_without_target_path() {
    let mut base = base_tree();
    let overlay = DeviceTree::new(
        DeviceTreeNode::builder("")
            .child(
                DeviceTreeNode::builder("lost")
                    .child(DeviceTreeNode::new("__overlay__"))
                    .build(),
            )
            .build(),
    );
    let error = base.apply_overlay(&overlay).unwrap_err();
    assert!(matches!(error.kind, OverlayErrorKind::TargetPathNotFound));
    assert_eq!(error.fragment(), "lost");
}

#[test]
fn fragment_with_target_path_that_is_no_text() {
    let mut base = base_tree();
    let overlay = DeviceTree::new(
        DeviceTreeNode::builder("")
            .child(fragment("bad", &[0xff, 0xfe], Some(DeviceTreeNode::new("__overlay__"))))
            .build(),
    );
    let error = base.apply_overlay(&overlay).unwrap_err();
    assert!(matches!(error.kind, OverlayErrorKind::TargetPathInvalid));
}

#[test]
fn fragment_with_unknown_target() {
    let mut base = base_tree();
    let overlay = DeviceTree::new(
        DeviceTreeNode::builder("")
            .child(fragment("f", b"/nowhere\0", Some(DeviceTreeNode::new("__overlay__"))))
            .build(),
    );
    let error = base.apply_overlay(&overlay).unwrap_err();
    assert!(matches!(error.kind, OverlayErrorKind::TargetNodeNotFound));
    assert_eq!(base, base_tree());
}

#[test]
fn unknown_target_comes_before_missing_source() {
    let mut base = base_tree();
    let overlay = DeviceTree::new(
        DeviceTreeNode::builder("").child(fragment("f", b"/nowhere\0", None)).build(),
    );
    let error = base.apply_overlay(&overlay).unwrap_err();
    assert!(matches!(error.kind, OverlayErrorKind::TargetNodeNotFound));
}

#[test]
fn corrupted_phandle_in_the_base_tree() {
    let mut base = DeviceTree::new(
        DeviceTreeNode::builder("")
            .child(
                DeviceTreeNode::builder("broken")
                    .property(DeviceTreeProperty::new("phandle", vec![0, 0, 1]))
                    .build(),
            )
            .build(),
    );
    let overlay = DeviceTree::new(DeviceTreeNode::new(""));
    let error = base.apply_overlay(&overlay).unwrap_err();
    assert!(matches!(error.kind, OverlayErrorKind::CorruptedPhandle));
    assert_eq!(error.fragment(), "broken");
    assert_eq!(error.to_string(), "phandle property is corrupted in fragment `broken`");
}

#[test]
fn corrupted_phandle_in_the_overlay() {
    let mut base = base_tree();
    let overlay = DeviceTree::new(
        DeviceTreeNode::builder("")
            .child(fragment(
                "f",
                b"/\0",
                Some(
                    DeviceTreeNode::builder("__overlay__")
                        .child(
                            DeviceTreeNode::builder("odd")
                                .property(DeviceTreeProperty::new("phandle", vec![1, 2, 3, 4, 5]))
                                .build(),
                        )
                        .build(),
                ),
            ))
            .build(),
    );
    let error = base.apply_overlay(&overlay).unwrap_err();
    assert!(matches!(error.kind, OverlayErrorKind::CorruptedPhandle));
    assert_eq!(error.fragment(), "odd");
}

#[test]
fn phandles_start_after_the_largest_of_the_base_tree() {
    let base = DeviceTree::new(
        DeviceTreeNode::builder("")
            .property(DeviceTreeProperty::new("phandle", cell(4)))
            .child(
                DeviceTreeNode::builder("deep")
                    .child(
                        DeviceTreeNode::builder("deeper")
                            .property(DeviceTreeProperty::new("phandle", cell(9)))
                            .build(),
                    )
                    .build(),
            )
            .build(),
    );
    let mut map = PhandleMap::new(&base).unwrap();
    let mut node = DeviceTreeNode::builder("n")
        .property(DeviceTreeProperty::new("phandle", cell(1)))
        .property(DeviceTreeProperty::new("refs", vec![0, 0, 0, 1, 0, 0, 0, 5, 0, 0, 0, 1]))
        .property(DeviceTreeProperty::new("odd", vec![0, 0, 0, 1, 0]))
        .build();
    map.fixup_node(&mut node).unwrap();
    assert_eq!(node.property("phandle").unwrap().as_u32(), Ok(10));
    assert_eq!(
        node.property("refs").unwrap().value(),
        &[0, 0, 0, 10, 0, 0, 0, 5, 0, 0, 0, 10]
    );
    assert_eq!(node.property("odd").unwrap().value(), &[0, 0, 0, 1, 0]);
    assert_eq!(map.renumber(1), 10);
    assert_eq!(map.renumber(10), 10);
    assert_eq!(map.renumber(7), 7);
}

#[test]
fn a_later_fragment_refers_to_an_earlier_one() {
    let mut base = base_tree();
    let overlay = DeviceTree::new(
        DeviceTreeNode::builder("")
            .child(fragment(
                "one",
                b"/\0",
                Some(
                    DeviceTreeNode::builder("__overlay__")
                        .child(
                            DeviceTreeNode::builder("clock")
                                .property(DeviceTreeProperty::new("phandle", cell(5)))
                                .build(),
                        )
                        .build(),
                ),
            ))
            .child(fragment(
                "two",
                b"/node1\0",
                Some(
                    DeviceTreeNode::builder("__overlay__")
                        .property(DeviceTreeProperty::new("clocks", cell(5)))
                        .build(),
                ),
            ))
            .build(),
    );
    base.apply_overlay(&overlay).unwrap();
    assert_eq!(base.root().child("clock").unwrap().property("phandle").unwrap().as_u32(), Ok(2));
    assert_eq!(base.root().child("node1").unwrap().property("clocks").unwrap().as_u32(), Ok(2));
}

#[test]
fn phandles_wrap_around_after_the_largest_number() {
    let base = DeviceTree::new(
        DeviceTreeNode::builder("")
            .property(DeviceTreeProperty::new("phandle", cell(u32::MAX)))
            .build(),
    );
    let mut map = PhandleMap::new(&base).unwrap();
    let mut first = DeviceTreeNode::builder("first")
        .property(DeviceTreeProperty::new("phandle", cell(7)))
        .build();
    let mut second = DeviceTreeNode::builder("second")
        .property(DeviceTreeProperty::new("phandle", cell(8)))
        .build();
    map.fixup_node(&mut first).unwrap();
    map.fixup_node(&mut second).unwrap();
    assert_eq!(first.property("phandle").unwrap().as_u32(), Ok(0));
    assert_eq!(second.property("phandle").unwrap().as_u32(), Ok(1));
}

#[test]
fn a_tree_without_phandles_starts_at_one() {
    let base = DeviceTree::new(DeviceTreeNode::new(""));
    let mut map = PhandleMap::new(&base).unwrap();
    let mut node = DeviceTreeNode::builder("n")
        .property(DeviceTreeProperty::new("phandle", cell(40)))
        .child(
            DeviceTreeNode::builder("below")
                .property(DeviceTreeProperty::new("phandle", cell(41)))
                .property(DeviceTreeProperty::new("parent", cell(40)))
                .build(),
        )
        .build();
    map.fixup_node(&mut node).unwrap();
    assert_eq!(node.property("phandle").unwrap().as_u32(), Ok(1));
    let below = node.child("below").unwrap();
    assert_eq!(below.property("phandle").unwrap().as_u32(), Ok(2));
    assert_eq!(below.property("parent").unwrap().as_u32(), Ok(1));
}

#[test]
fn a_property_is_renumbered_cell_by_cell() {
    let base = DeviceTree::new(DeviceTreeNode::new(""));
    let mut map = PhandleMap::new(&base).unwrap();
    let mut node = DeviceTreeNode::builder("n")
        .property(DeviceTreeProperty::new("phandle", cell(2)))
        .build();
    map.fixup_node(&mut node).unwrap();
    // 2 stands for 1 now; a cell that holds 1 stays, whatever it means.
    let mut prop = DeviceTreeProperty::new("p", vec![0, 0, 0, 2, 0, 0, 0, 1, 0, 0, 2, 0]);
    map.fixup_property(&mut prop);
    assert_eq!(prop.value(), &[0, 0, 0, 1, 0, 0, 0, 1, 0, 0, 2, 0]);
    let mut empty = DeviceTreeProperty::new("e", vec![]);
    map.fixup_property(&mut empty);
    assert_eq!(empty.value(), &[] as &[u8]);
}
