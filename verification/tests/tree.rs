use ritm_device_tree::fdt::Fdt;
use ritm_device_tree::model::{DeviceTree, DeviceTreeNode, DeviceTreeProperty};
use ritm_device_tree::MemoryReservation;

fn sample() -> DeviceTree {
    let mut tree = DeviceTree::new(
        DeviceTreeNode::builder("")
            .property(DeviceTreeProperty::new("compatible", b"vendor,board\0".to_vec()))
            .property(DeviceTreeProperty::new("reg", vec![0, 0, 0, 1, 0, 0, 0, 2]))
            .child(
                DeviceTreeNode::builder("cpus")
                    .property(DeviceTreeProperty::new("reg", vec![0, 0, 0, 3]))
                    .child(
                        DeviceTreeNode::builder("cpu@0")
                            .property(DeviceTreeProperty::new("compatible", b"arm\0".to_vec()))
                            .property(DeviceTreeProperty::new("odd", vec![1, 2, 3]))
                            .build(),
                    )
                    .build(),
            )
            .child(DeviceTreeNode::builder("memory").build())
            .build(),
    );
    tree.memory_reservations.push(MemoryReservation::new(0x8000_0000, 0x1000));
    tree
}

#[test]
fn a_tree_comes_back_from_its_blob() {
    let tree = sample();
    let dtb = tree.to_dtb();
    let fdt = Fdt::new(&dtb).unwrap();
    let back = DeviceTree::from_fdt(&fdt).unwrap();
    assert_eq!(back, tree);
    assert_eq!(back.root().children()[0].name(), "cpus");
    assert_eq!(back.root().children()[1].name(), "memory");
    assert_eq!(back.root().properties()[0].name(), "compatible");
    assert_eq!(back.memory_reservations, tree.memory_reservations);
    assert_eq!(back.to_dtb(), dtb);
}

#[test]
fn an_empty_root_takes_seventy_two_bytes() {
    let tree = DeviceTree::new(DeviceTreeNode::new(""));
    let dtb = tree.to_dtb();
    let mut expected = Vec::new();
    for field in [0xd00d_feedu32, 72, 56, 72, 40, 17, 16, 0, 0, 16] {
        expected.extend_from_slice(&field.to_be_bytes());
    }
    expected.extend_from_slice(&[0u8; 16]);
    for token in [1u32, 0, 2, 9] {
        expected.extend_from_slice(&token.to_be_bytes());
    }
    assert_eq!(dtb, expected);
    assert_eq!(tree.try_to_dtb(), Some(expected));
}

#[test]
fn property_names_are_written_once() {
    let tree = sample();
    let dtb = tree.to_dtb();
    let fdt = Fdt::new(&dtb).unwrap();
    let header = fdt.header();
    let strings = &dtb[header.off_dt_strings() as usize..];
    assert_eq!(strings, b"compatible\0reg\0odd\0");
    assert_eq!(header.size_dt_strings() as usize, strings.len());
    assert_eq!(header.totalsize() as usize, dtb.len());
    assert_eq!(header.off_mem_rsvmap(), 40);
    assert_eq!(header.off_dt_struct(), 40 + 32);
}

#[test]
fn values_and_names_are_padded_with_zeros() {
    let tree = DeviceTree::new(
        DeviceTreeNode::builder("abcd")
            .property(DeviceTreeProperty::new("p", vec![9, 8, 7, 6, 5]))
            .build(),
    );
    let dtb = tree.to_dtb();
    let mut structure = Vec::new();
    structure.extend_from_slice(&1u32.to_be_bytes());
    structure.extend_from_slice(b"abcd\0\0\0\0");
    structure.extend_from_slice(&3u32.to_be_bytes());
    structure.extend_from_slice(&5u32.to_be_bytes());
    structure.extend_from_slice(&0u32.to_be_bytes());
    structure.extend_from_slice(&[9, 8, 7, 6, 5, 0, 0, 0]);
    structure.extend_from_slice(&2u32.to_be_bytes());
    structure.extend_from_slice(&9u32.to_be_bytes());
    assert_eq!(&dtb[56..56 + structure.len()], &structure[..]);
    assert_eq!(&dtb[56 + structure.len()..], b"p\0");
}

#[test]
fn an_added_property_replaces_one_of_its_name_in_place() {
    let mut node = DeviceTreeNode::new("n");
    node.add_property(DeviceTreeProperty::new("a", vec![1]));
    node.add_property(DeviceTreeProperty::new("b", vec![2]));
    node.add_property(DeviceTreeProperty::new("c", vec![3]));
    node.add_property(DeviceTreeProperty::new("a", vec![4]));
    let names: Vec<&str> = node.properties().into_iter().map(|p| p.name()).collect();
    assert_eq!(names, vec!["a", "b", "c"]);
    assert_eq!(node.property("a").unwrap().value(), &[4]);
    assert_eq!(node.property_count(), 3);
    assert_eq!(node.property_at(1).unwrap().name(), "b");
    assert!(node.property_at(3).is_none());
}

#[test]
fn an_added_child_replaces_one_of_its_name_with_all_below_it() {
    let mut node = DeviceTreeNode::new("n");
    node.add_child(DeviceTreeNode::builder("a").child(DeviceTreeNode::new("deep")).build());
    node.add_child(DeviceTreeNode::new("b"));
    node.add_child(
        DeviceTreeNode::builder("a")
            .property(DeviceTreeProperty::new("new", vec![]))
            .build(),
    );
    let names: Vec<&str> = node.children().into_iter().map(|c| c.name()).collect();
    assert_eq!(names, vec!["a", "b"]);
    assert!(node.child("a").unwrap().child("deep").is_none());
    assert!(node.child("a").unwrap().property("new").is_some());
    assert_eq!(node.child_count(), 2);
    assert_eq!(node.child_at(1).unwrap().name(), "b");
    assert!(node.child_at(2).is_none());
}

#[test]
fn removing_keeps_the_order_of_the_rest() {
    let mut node = DeviceTreeNode::new("n");
    for name in ["a", "b", "c", "d"] {
        node.add_property(DeviceTreeProperty::new(name, vec![]));
        node.add_child(DeviceTreeNode::new(name));
    }
    assert_eq!(node.remove_property("b").unwrap().name(), "b");
    assert!(node.remove_property("b").is_none());
    assert_eq!(node.remove_child("c").unwrap().name(), "c");
    assert!(node.remove_child("zz").is_none());
    let props: Vec<&str> = node.properties().into_iter().map(|p| p.name()).collect();
    assert_eq!(props, vec!["a", "c", "d"]);
    let kids: Vec<&str> = node.children().into_iter().map(|c| c.name()).collect();
    assert_eq!(kids, vec!["a", "b", "d"]);
}

#[test]
fn entries_are_written_through_their_position() {
    let mut node = DeviceTreeNode::new("n");
    node.add_property(DeviceTreeProperty::new("a", vec![1]));
    node.add_property(DeviceTreeProperty::new("b", vec![2]));
    node.add_child(DeviceTreeNode::new("x"));
    node.add_child(DeviceTreeNode::new("y"));
    node.properties_mut(1).unwrap().set_value(vec![7, 7]);
    assert!(node.properties_mut(2).is_none());
    node.children_mut(0).unwrap().add_property(DeviceTreeProperty::new("p", vec![]));
    assert!(node.children_mut(2).is_none());
    assert_eq!(node.property("a").unwrap().value(), &[1]);
    assert_eq!(node.property("b").unwrap().value(), &[7, 7]);
    assert!(node.child("x").unwrap().property("p").is_some());
    assert!(node.child("y").unwrap().property("p").is_none());
}

#[test]
fn a_copy_is_equal_and_on_its_own() {
    let tree = sample();
    let mut copy = tree.clone();
    assert_eq!(copy, tree);
    copy.root_mut().child_mut("cpus").unwrap().remove_child("cpu@0");
    assert_ne!(copy, tree);
    assert!(tree.root().child("cpus").unwrap().child("cpu@0").is_some());

    let node = tree.root().child("cpus").unwrap().clone();
    assert_eq!(&node, tree.root().child("cpus").unwrap());
    let prop = node.property("reg").unwrap().clone();
    assert_eq!(prop.value(), &[0, 0, 0, 3]);
}

#[test]
fn a_new_node_is_empty() {
    let node = DeviceTreeNode::new("fresh");
    assert_eq!(node.name(), "fresh");
    assert_eq!(node.properties().len(), 0);
    assert_eq!(node.children().len(), 0);
    assert!(node.property("fresh").is_none());
    let node = DeviceTreeNode::default();
    assert_eq!(node.name(), "");
    assert_eq!(node.child_count(), 0);
}

#[test]
fn values_are_read_as_numbers_and_text() {
    let prop = DeviceTreeProperty::new("my-prop", 1234u32.to_be_bytes().to_vec());
    assert_eq!(prop.as_u32(), Ok(1234));
    let prop = DeviceTreeProperty::new("my-prop", vec![0x12, 0x34, 0x56, 0x78]);
    assert_eq!(prop.as_u32(), Ok(0x12345678));
    assert_eq!(DeviceTreeProperty::new("p", vec![1, 2, 3]).as_u32(), Err(()));
    assert_eq!(DeviceTreeProperty::new("p", vec![1, 2, 3, 4, 5]).as_u32(), Err(()));

    assert_eq!(DeviceTreeProperty::new("p", b"hello".to_vec()).as_str(), Ok("hello"));
    assert_eq!(DeviceTreeProperty::new("p", b"hello\0\0".to_vec()).as_str(), Ok("hello"));
    assert_eq!(DeviceTreeProperty::new("p", b"a\0b\0".to_vec()).as_str(), Ok("a\0b"));
    assert_eq!(DeviceTreeProperty::new("p", vec![]).as_str(), Ok(""));
    assert_eq!(DeviceTreeProperty::new("p", vec![0xff]).as_str(), Err(()));
}

#[test]
fn paths_lead_to_nodes_for_writing() {
    let mut tree = sample();
    assert_eq!(tree.find_node_mut("/").unwrap().name(), "");
    assert_eq!(tree.find_node_mut("//cpus//cpu@0/").unwrap().name(), "cpu@0");
    assert!(tree.find_node_mut("cpus").is_none());
    assert!(tree.find_node_mut("").is_none());
    assert!(tree.find_node_mut("/cpus/cpu@1").is_none());
    tree.find_node_mut("/memory").unwrap().add_child(DeviceTreeNode::new("bank"));
    assert!(tree.root().child("memory").unwrap().child("bank").is_some());
}

#[test]
fn a_blob_with_repeated_names_keeps_the_last_in_the_first_place() {
    // root { a = <1>; b = <2>; a = <3>; }
    let mut structure = Vec::new();
    for word in [1u32, 0, 3, 4, 0, 1, 3, 4, 2, 2, 3, 4, 0, 3, 2, 9] {
        structure.extend_from_slice(&word.to_be_bytes());
    }
    let strings = b"a\0b\0";
    let mut dtb = Vec::new();
    let off_strings = 56 + structure.len() as u32;
    for field in [
        0xd00d_feedu32,
        off_strings + 4,
        56,
        off_strings,
        40,
        17,
        16,
        0,
        4,
        structure.len() as u32,
    ] {
        dtb.extend_from_slice(&field.to_be_bytes());
    }
    dtb.extend_from_slice(&[0u8; 16]);
    dtb.extend_from_slice(&structure);
    dtb.extend_from_slice(strings);
    let fdt = Fdt::new(&dtb).unwrap();
    let tree = DeviceTree::from_fdt(&fdt).unwrap();
    let props = tree.root().properties();
    assert_eq!(props.len(), 2);
    assert_eq!(props[0].name(), "a");
    assert_eq!(props[0].as_u32(), Ok(3));
    assert_eq!(props[1].as_u32(), Ok(2));
}

#[test]
fn a_blob_that_cannot_be_read_gives_no_tree() {
    let mut structure = Vec::new();
    for word in [1u32, 0, 1, 0, 0x77, 2, 9] {
        structure.extend_from_slice(&word.to_be_bytes());
    }
    let mut dtb = Vec::new();
    let off_strings = 56 + structure.len() as u32;
    for field in
        [0xd00d_feedu32, off_strings, 56, off_strings, 40, 17, 16, 0, 0, structure.len() as u32]
    {
        dtb.extend_from_slice(&field.to_be_bytes());
    }
    dtb.extend_from_slice(&[0u8; 16]);
    dtb.extend_from_slice(&structure);
    let fdt = Fdt::new(&dtb).unwrap();
    let error = DeviceTree::from_fdt(&fdt).unwrap_err();
    assert!(matches!(error.kind, ritm_device_tree::error::FdtErrorKind::BadToken(0x77)));
    assert!(fdt.to_string().unwrap().contains("<Error reading child node>"));
}

#[test]
fn a_built_tree_is_canonical() {
    let tree = sample();
    assert!(tree.is_canonical());
    assert!(tree.root().is_canonical());
    assert!(DeviceTree::new(DeviceTreeNode::new("")).is_canonical());
    let back = DeviceTree::from_fdt(&Fdt::new(&tree.to_dtb()).unwrap()).unwrap();
    assert!(back.is_canonical());
    assert_eq!(back, tree);
}

#[test]
fn a_name_with_the_zero_character_is_not_canonical() {
    let node = DeviceTreeNode::new("a\0b");
    assert!(!node.is_canonical());
    let node = DeviceTreeNode::builder("n")
        .property(DeviceTreeProperty::new("p\0", vec![]))
        .build();
    assert!(!node.is_canonical());
    let tree = DeviceTree::new(
        DeviceTreeNode::builder("").child(DeviceTreeNode::new("deep\0")).build(),
    );
    assert!(!tree.is_canonical());
    // Such a tree does not come back: the name is cut at the zero byte.
    let back = DeviceTree::from_fdt(&Fdt::new(&tree.to_dtb()).unwrap()).unwrap();
    assert_ne!(back, tree);
    assert_eq!(back.root().children()[0].name(), "deep");
}

#[test]
fn an_entry_under_another_name_is_not_canonical() {
    let mut tree = sample();
    *tree.root_mut().child_mut("memory").unwrap() = DeviceTreeNode::new("other");
    assert!(!tree.is_canonical());
    assert_eq!(tree.root().child_entry(1).unwrap().0, "memory");
    assert_eq!(tree.root().child_entry(1).unwrap().1.name(), "other");

    let mut tree = sample();
    *tree.root_mut().property_mut("reg").unwrap() = DeviceTreeProperty::new("size", vec![]);
    assert!(!tree.is_canonical());
    assert_eq!(tree.root().property_entry(1).unwrap().0, "reg");
    assert_eq!(tree.root().property_entry(1).unwrap().1.name(), "size");
    assert!(tree.root().property_entry(2).is_none());
}

#[test]
fn a_reservation_of_zeros_is_not_canonical() {
    let mut tree = sample();
    tree.memory_reservations.push(MemoryReservation::new(0, 0));
    tree.memory_reservations.push(MemoryReservation::new(1, 1));
    assert!(!tree.is_canonical());
    // Such a tree does not come back: the pair of zeros ends the reservations.
    let back = DeviceTree::from_fdt(&Fdt::new(&tree.to_dtb()).unwrap()).unwrap();
    assert_eq!(back.memory_reservations, vec![MemoryReservation::new(0x8000_0000, 0x1000)]);
    let mut tree = sample();
    tree.memory_reservations.push(MemoryReservation::new(0, 1));
    assert!(tree.is_canonical());
}
