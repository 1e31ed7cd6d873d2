use ritm_device_tree::model::{DeviceTree, DeviceTreeNode, DeviceTreeProperty};

#[test]
fn tree_creation() {
    let tree = DeviceTree::new(
        DeviceTreeNode::builder("")
            .property(DeviceTreeProperty::new("compatible", b"test".to_vec()))
            .property(DeviceTreeProperty::new("prop-u32", 1u32.to_be_bytes().to_vec()))
            .child(
                DeviceTreeNode::builder("child-a")
                    .property(DeviceTreeProperty::new("child-prop", b"a".to_vec()))
                    .build(),
            )
            .child(
                DeviceTreeNode::builder("child-b")
                    .property(DeviceTreeProperty::new("child-prop", b"b".to_vec()))
                    .build(),
            )
            .build(),
    );

    let root = tree.root();
    assert_eq!(root.name(), "");
    assert_eq!(root.properties().len(), 2);
    assert_eq!(root.children().len(), 2);

    let child_a = root.children().into_iter().find(|c| c.name() == "child-a").unwrap();
    assert_eq!(child_a.property("child-prop").unwrap().as_str(), Ok("a"));

    let child_b = root.children().into_iter().find(|c| c.name() == "child-b").unwrap();
    assert_eq!(child_b.property("child-prop").unwrap().as_str(), Ok("b"));
}

#[test]
fn tree_modification() {
    let mut tree = DeviceTree::new(DeviceTreeNode::builder("root").build());

    // Add a child
    let child = DeviceTreeNode::new("child");
    tree.root_mut().add_child(child);
    assert_eq!(tree.root().children().len(), 1);

    // Add a property to the child
    let child = tree.root_mut().child_mut("child").unwrap();
    child.add_property(DeviceTreeProperty::new("prop", b"value".to_vec()));
    assert_eq!(child.properties().len(), 1);

    // Find and modify the property
    let prop = tree
        .root_mut()
        .child_mut("child")
        .unwrap()
        .property_mut("prop")
        .unwrap();
    prop.set_value("new-value".as_bytes().to_vec());

    // Verify the modification
    let child = tree
        .root()
        .children()
        .into_iter()
        .find(|c| c.name() == "child")
        .unwrap();
    assert_eq!(child.property("prop").unwrap().as_str(), Ok("new-value"));

    // Remove the property
    let child = tree.root_mut().child_mut("child").unwrap();
    let removed_prop = child.remove_property("prop");
    assert!(removed_prop.is_some());
    assert_eq!(child.properties().len(), 0);

    // Remove the child
    let removed_child = tree.root_mut().remove_child("child");
    assert!(removed_child.is_some());
    assert_eq!(tree.root().children().len(), 0);
}

#[test]
fn find_node_mut() {
    let mut tree = DeviceTree::new(
        DeviceTreeNode::builder("")
            .child(
                DeviceTreeNode::builder("child-a")
                    .child(DeviceTreeNode::builder("child-a-a").build())
                    .build(),
            )
            .child(DeviceTreeNode::builder("child-b").build())
            .build(),
    );

    // Find a nested child and modify it
    let child_a_a = tree.find_node_mut("/child-a/child-a-a").unwrap();
    child_a_a.add_property(DeviceTreeProperty::new("prop", b"value".to_vec()));

    // Verify the modification
    let child_a = tree
        .root()
        .children()
        .into_iter()
        .find(|c| c.name() == "child-a")
        .unwrap();
    let child_a_a = child_a
        .children()
        .into_iter()
        .find(|c| c.name() == "child-a-a")
        .unwrap();
    assert_eq!(child_a_a.property("prop").unwrap().as_str(), Ok("value"));

    // Find a non-existent node
    assert!(tree.find_node_mut("/child-a/child-c").is_none());
}

#[test]
fn device_tree_format() {
    let tree = DeviceTree::new(
        DeviceTreeNode::builder("")
            .child(
                DeviceTreeNode::builder("child-a")
                    .child(DeviceTreeNode::builder("child-a-a").build())
                    .build(),
            )
            .child(DeviceTreeNode::builder("child-b").build())
            .build(),
    );

    let fds = tree.to_string().unwrap();

    assert_eq!(
        fds,
        r#"/dts-v1/;

/ {
    child-a {
        child-a-a {
        };
    };

    child-b {
    };
};
"#
    );
}

#[test]
fn test_add_and_get_child() {
    let mut root = DeviceTreeNode::new("root");
    let child1 = DeviceTreeNode::new("child1");
    let child2 = DeviceTreeNode::new("child2");

    root.add_child(child1);
    root.add_child(child2);

    assert!(root.child("child1").is_some());
    assert!(root.child("child2").is_some());
    assert!(root.child("nonexistent").is_none());
}

#[test]
fn test_remove_child() {
    let mut root = DeviceTreeNode::new("root");
    let child1 = DeviceTreeNode::new("child1");
    root.add_child(child1);

    assert!(root.child("child1").is_some());
    let removed_child = root.remove_child("child1");
    assert!(removed_child.is_some());
    assert!(root.child("child1").is_none());
}

#[test]
fn test_find_node_mut_with_children_map() {
    let mut root = DeviceTreeNode::new("root");
    let mut child1 = DeviceTreeNode::new("child1");
    child1.add_child(DeviceTreeNode::new("grandchild1"));
    root.add_child(child1);

    let mut tree = DeviceTree::new(root);

    let node = tree.find_node_mut("/child1").unwrap();
    assert_eq!(node.name(), "child1");

    let grandchild = tree.find_node_mut("/child1/grandchild1").unwrap();
    assert_eq!(grandchild.name(), "grandchild1");

    assert!(tree.find_node_mut("/child1/nonexistent").is_none());
    assert!(tree.find_node_mut("/nonexistent").is_none());
}
