use ritm_device_tree::error::FdtErrorKind;
use ritm_device_tree::fdt::Fdt;
use ritm_device_tree::model::DeviceTree;

/// A blob written by hand, token by token.
struct Blob {
    reservations: Vec<(u64, u64)>,
    structure: Vec<u8>,
    strings: Vec<u8>,
}

impl Blob {
    fn new() -> Self {
        Blob { reservations: Vec::new(), structure: Vec::new(), strings: Vec::new() }
    }

    fn pad(&mut self) {
        while self.structure.len() % 4 != 0 {
            self.structure.push(0);
        }
    }

    fn token(&mut self, value: u32) {
        self.structure.extend_from_slice(&value.to_be_bytes());
    }

    fn begin(&mut self, name: &str) {
        self.token(1);
        self.structure.extend_from_slice(name.as_bytes());
        self.structure.push(0);
        self.pad();
    }

    fn end(&mut self) {
        self.token(2);
    }

    fn name_offset(&mut self, name: &str) -> u32 {
        let mut at = 0;
        while at < self.strings.len() {
            let mut stop = at;
            while self.strings[stop] != 0 {
                stop += 1;
            }
            if &self.strings[at..stop] == name.as_bytes() {
                return at as u32;
            }
            at = stop + 1;
        }
        let offset = self.strings.len() as u32;
        self.strings.extend_from_slice(name.as_bytes());
        self.strings.push(0);
        offset
    }

    fn prop(&mut self, name: &str, value: &[u8]) {
        let offset = self.name_offset(name);
        self.token(3);
        self.token(value.len() as u32);
        self.token(offset);
        self.structure.extend_from_slice(value);
        self.pad();
    }

    fn finish(mut self) -> Vec<u8> {
        self.token(9);
        let off_rsv = 40u32;
        let off_struct = off_rsv + 16 * (self.reservations.len() as u32 + 1);
        let off_strings = off_struct + self.structure.len() as u32;
        let total = off_strings + self.strings.len() as u32;
        let mut out = Vec::new();
        for field in [
            0xd00d_feed,
            total,
            off_struct,
            off_strings,
            off_rsv,
            17,
            16,
            0,
            self.strings.len() as u32,
            self.structure.len() as u32,
        ] {
            out.extend_from_slice(&field.to_be_bytes());
        }
        for (address, size) in self.reservations.iter() {
            out.extend_from_slice(&address.to_be_bytes());
            out.extend_from_slice(&size.to_be_bytes());
        }
        out.extend_from_slice(&[0u8; 16]);
        out.extend_from_slice(&self.structure);
        out.extend_from_slice(&self.strings);
        out
    }
}

/// A root with one property and one child.
fn test_dtb() -> Vec<u8> {
    let mut b = Blob::new();
    b.begin("");
    b.prop("compatible", b"test\0");
    b.begin("node");
    b.prop("reg", &[0, 0, 0, 1]);
    b.end();
    b.end();
    b.finish()
}

/// A root with the children `child1` and `child2`.
fn test_children_dtb() -> Vec<u8> {
    let mut b = Blob::new();
    b.begin("");
    b.begin("child1");
    b.end();
    b.begin("child2");
    b.end();
    b.end();
    b.finish()
}

/// A root with the node `test-props`, which has a property of each kind.
fn test_props_dtb() -> Vec<u8> {
    let mut b = Blob::new();
    b.begin("");
    b.begin("test-props");
    b.prop("u32-prop", &[0x12, 0x34, 0x56, 0x78]);
    b.prop("u64-prop", &[0x11, 0x22, 0x33, 0x44, 0x55, 0x66, 0x77, 0x88]);
    b.prop("str-prop", b"hello world\0");
    b.prop("str-list-prop", b"first\0second\0third\0");
    b.end();
    b.end();
    b.finish()
}

/// A root with `child1`, which holds `child2` with the property `prop2`,
/// and with `child3`.
fn test_children_nested_dtb() -> Vec<u8> {
    let mut b = Blob::new();
    b.begin("");
    b.begin("child1");
    b.prop("prop1", &[0, 0, 0, 1]);
    b.begin("child2");
    b.prop("prop2", &[0, 0, 0, 2]);
    b.end();
    b.end();
    b.begin("child3");
    b.prop("prop3", &[0, 0, 0, 3]);
    b.end();
    b.end();
    b.finish()
}

/// The nodes `/a`, `/a/b`, `/a/b/c` and `/d`.
fn test_traversal_dtb() -> Vec<u8> {
    let mut b = Blob::new();
    b.begin("");
    b.begin("a");
    b.begin("b");
    b.begin("c");
    b.end();
    b.end();
    b.end();
    b.begin("d");
    b.end();
    b.end();
    b.finish()
}

/// A tree with a value of each rendering.
fn test_pretty_print_dtb() -> Vec<u8> {
    let mut b = Blob::new();
    b.begin("");
    b.prop("compatible", b"vendor,board\0");
    b.prop("#address-cells", &[0, 0, 0, 2]);
    b.prop("names", b"first\0second\0");
    b.prop("empty", &[]);
    b.prop("mac", &[0xde, 0xad, 0xbe]);
    b.begin("cpus");
    b.prop("reg", &[0, 0, 0, 0, 0x12, 0x34, 0x56, 0x78]);
    b.begin("cpu@0");
    b.prop("status", b"okay\0");
    b.end();
    b.end();
    b.begin("memory");
    b.end();
    b.end();
    b.finish()
}

const TEST_PRETTY_PRINT_DTS: &str = "/dts-v1/;

/ {
    compatible = \"vendor,board\";
    #address-cells = <0x02>;
    names = \"first\", \"second\";
    empty;
    mac = [de ad be];

    cpus {
        reg = <0x00 0x12345678>;

        cpu@0 {
            status = \"okay\";
        };
    };

    memory {
    };
};
";

const FDT_HEADER_OK: &[u8] = &[
    0xd0, 0x0d, 0xfe, 0xed, // magic
    0x00, 0x00, 0x00, 0x3c, // totalsize = 60
    0x00, 0x00, 0x00, 0x38, // off_dt_struct = 56
    0x00, 0x00, 0x00, 0x3c, // off_dt_strings = 60
    0x00, 0x00, 0x00, 0x28, // off_mem_rsvmap = 40
    0x00, 0x00, 0x00, 0x11, // version = 17
    0x00, 0x00, 0x00, 0x10, // last_comp_version = 16
    0x00, 0x00, 0x00, 0x00, // boot_cpuid_phys = 0
    0x00, 0x00, 0x00, 0x00, // size_dt_strings = 0
    0x00, 0x00, 0x00, 0x04, // size_dt_struct = 4
    0x00, 0x00, 0x00, 0x00, // memory reservation
    0x00, 0x00, 0x00, 0x00, // ...
    0x00, 0x00, 0x00, 0x00, // ...
    0x00, 0x00, 0x00, 0x00, // ...
    0x00, 0x00, 0x00, 0x09, // dt struct
];

#[test]
fn header_is_parsed_correctly() {
    let fdt = Fdt::new(FDT_HEADER_OK).unwrap();
    let header = fdt.header();

    assert_eq!(header.totalsize(), 60);
    assert_eq!(header.off_dt_struct(), 56);
    assert_eq!(header.off_dt_strings(), 60);
    assert_eq!(header.off_mem_rsvmap(), 40);
    assert_eq!(header.version(), 17);
    assert_eq!(header.last_comp_version(), 16);
    assert_eq!(header.boot_cpuid_phys(), 0);
    assert_eq!(header.size_dt_strings(), 0);
    assert_eq!(header.size_dt_struct(), 4);
}

#[test]
fn invalid_magic() {
    let mut header = FDT_HEADER_OK.to_vec();
    header[0] = 0x00;
    let result = Fdt::new(&header);
    assert!(matches!(result, Err(e) if matches!(e.kind, FdtErrorKind::InvalidMagic)));
}

#[test]
fn invalid_length() {
    let header = &FDT_HEADER_OK[..10];
    let result = Fdt::new(header);
    assert!(matches!(result, Err(e) if matches!(e.kind, FdtErrorKind::InvalidLength)));
}

#[test]
fn unsupported_version() {
    let mut header = FDT_HEADER_OK.to_vec();
    header[23] = 0x10;
    let result = Fdt::new(&header);
    assert!(matches!(result, Err(e) if matches!(e.kind, FdtErrorKind::UnsupportedVersion(16))));
}

#[test]
fn read_child_nodes() {
    let dtb = test_children_dtb();
    let fdt = Fdt::new(&dtb).unwrap();
    let root = fdt.root().unwrap();
    let mut children = root.children();

    let child1 = children.next().unwrap().unwrap();
    assert_eq!(child1.name().unwrap(), "child1");

    let child2 = children.next().unwrap().unwrap();
    assert_eq!(child2.name().unwrap(), "child2");

    assert!(children.next().is_none());
}

#[test]
fn read_prop_values() {
    let dtb = test_props_dtb();
    let fdt = Fdt::new(&dtb).unwrap();
    let root = fdt.root().unwrap();
    let mut children = root.children();
    let node = children.next().unwrap().unwrap();
    assert_eq!(node.name().unwrap(), "test-props");

    let mut props = node.properties();

    let prop = props.next().unwrap().unwrap();
    assert_eq!(prop.name(), "u32-prop");
    assert_eq!(prop.as_u32().unwrap(), 0x12345678);

    let prop = props.next().unwrap().unwrap();
    assert_eq!(prop.name(), "u64-prop");
    assert_eq!(prop.as_u64().unwrap(), 0x1122334455667788);

    let prop = props.next().unwrap().unwrap();
    assert_eq!(prop.name(), "str-prop");
    assert_eq!(prop.as_str().unwrap(), "hello world");

    let prop = props.next().unwrap().unwrap();
    assert_eq!(prop.name(), "str-list-prop");
    let mut str_list = prop.as_str_list();
    assert_eq!(str_list.next(), Some("first"));
    assert_eq!(str_list.next(), Some("second"));
    assert_eq!(str_list.next(), Some("third"));
    assert_eq!(str_list.next(), None);

    assert!(props.next().is_none());
}

#[test]
fn get_property_by_name() {
    let dtb = test_props_dtb();
    let fdt = Fdt::new(&dtb).unwrap();
    let root = fdt.root().unwrap();
    let node = root.child("test-props").unwrap().unwrap();

    let prop = node.property("u32-prop").unwrap().unwrap();
    assert_eq!(prop.name(), "u32-prop");
    assert_eq!(prop.as_u32().unwrap(), 0x12345678);

    let prop = node.property("str-prop").unwrap().unwrap();
    assert_eq!(prop.name(), "str-prop");
    assert_eq!(prop.as_str().unwrap(), "hello world");

    assert!(node.property("non-existent-prop").unwrap().is_none());
}

#[test]
fn get_child_by_name() {
    let dtb = test_children_dtb();
    let fdt = Fdt::new(&dtb).unwrap();
    let root = fdt.root().unwrap();

    let child1 = root.child("child1").unwrap().unwrap();
    assert_eq!(child1.name().unwrap(), "child1");

    let child2 = root.child("child2").unwrap().unwrap();
    assert_eq!(child2.name().unwrap(), "child2");

    assert!(root.child("non-existent-child").unwrap().is_none());
}

#[test]
fn children_nested() {
    let dtb = test_children_nested_dtb();
    let fdt = Fdt::new(&dtb).unwrap();
    let root = fdt.root().unwrap();

    let mut children = root.children();
    while let Some(child) = children.next() {
        println!("{}", child.unwrap().name().unwrap());
    }

    let mut children_names = Vec::new();
    let mut children = root.children();
    while let Some(child) = children.next() {
        children_names.push(child.unwrap().name().unwrap());
    }
    assert_eq!(children_names, vec!["child1", "child3"]);

    let child1 = root.child("child1").unwrap().unwrap();
    let child2 = child1.child("child2").unwrap().unwrap();
    let mut nested_properties = Vec::new();
    let mut props = child2.properties();
    while let Some(prop) = props.next() {
        nested_properties.push(prop.unwrap().name().to_owned());
    }
    assert_eq!(nested_properties, vec!["prop2"]);
}

#[test]
fn find_node_by_path() {
    let dtb = test_traversal_dtb();
    let fdt = Fdt::new(&dtb).unwrap();

    let root = fdt.find_node("/").unwrap().unwrap();
    assert_eq!(root.name().unwrap(), "");

    let a = fdt.find_node("/a").unwrap().unwrap();
    assert_eq!(a.name().unwrap(), "a");

    let b = fdt.find_node("/a/b").unwrap().unwrap();
    assert_eq!(b.name().unwrap(), "b");

    let c = fdt.find_node("/a/b/c").unwrap().unwrap();
    assert_eq!(c.name().unwrap(), "c");

    let d = fdt.find_node("/d").unwrap().unwrap();
    assert_eq!(d.name().unwrap(), "d");

    assert!(fdt.find_node("/a/c").is_none());
    assert!(fdt.find_node("/x").is_none());
    assert!(fdt.find_node("").is_none());
}

#[test]
fn pretty_print() {
    let dtb = test_pretty_print_dtb();
    let fdt = Fdt::new(&dtb).unwrap();
    let s = fdt.to_string().unwrap();
    let expected = TEST_PRETTY_PRINT_DTS;
    assert_eq!(s, expected);
}

#[test]
fn round_trip() {
    let file_contents: [Vec<u8>; 5] = [
        test_dtb(),
        test_traversal_dtb(),
        test_props_dtb(),
        test_children_dtb(),
        test_pretty_print_dtb(),
    ];

    for dtb in file_contents {
        let fdt = Fdt::new(&dtb).unwrap();
        let ir = DeviceTree::from_fdt(&fdt).unwrap();
        let new_dtb = ir.to_dtb();
        assert_eq!(dtb.to_vec(), new_dtb);
    }
}
