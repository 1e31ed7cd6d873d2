use ritm_device_tree::error::FdtErrorKind;
use ritm_device_tree::fdt::{Fdt, FdtToken};

fn be(v: u32) -> [u8; 4] {
    v.to_be_bytes()
}

/// A blob with the given structure block and strings block and no memory
/// reservation.
fn blob(structure: &[u8], strings: &[u8]) -> Vec<u8> {
    let off_struct = 56u32;
    let off_strings = off_struct + structure.len() as u32;
    let total = off_strings + strings.len() as u32;
    let mut out = Vec::new();
    for field in [
        0xd00d_feed,
        total,
        off_struct,
        off_strings,
        40,
        17,
        16,
        0,
        strings.len() as u32,
        structure.len() as u32,
    ] {
        out.extend_from_slice(&be(field));
    }
    out.extend_from_slice(&[0u8; 16]);
    out.extend_from_slice(structure);
    out.extend_from_slice(strings);
    out
}

fn tokens(words: &[u32]) -> Vec<u8> {
    let mut out = Vec::new();
    for w in words {
        out.extend_from_slice(&be(*w));
    }
    out
}

fn set_field(dtb: &mut [u8], index: usize, value: u32) {
    dtb[4 * index..4 * index + 4].copy_from_slice(&be(value));
}

fn valid() -> Vec<u8> {
    blob(&tokens(&[1, 0, 2, 9]), &[])
}

#[test]
fn a_valid_header_is_accepted() {
    let dtb = valid();
    let fdt = Fdt::new(&dtb).unwrap();
    assert_eq!(fdt.data(), &dtb[..]);
    assert_eq!(fdt.version(), 17);
    assert_eq!(fdt.last_comp_version(), 16);
    assert_eq!(fdt.boot_cpuid_phys(), 0);
    assert_eq!(fdt.header().magic(), 0xd00d_feed);
}

#[test]
fn a_header_cut_short_is_refused() {
    let dtb = valid();
    let error = Fdt::new(&dtb[..39]).unwrap_err();
    assert!(matches!(error.kind, FdtErrorKind::InvalidLength));
    assert_eq!(error.offset(), 0);
    assert_eq!(error.to_string(), "invalid FDT length at offset 0");
}

#[test]
fn a_wrong_magic_is_refused() {
    let mut dtb = valid();
    dtb[0] = 0xd1;
    let error = Fdt::new(&dtb).unwrap_err();
    assert!(matches!(error.kind, FdtErrorKind::InvalidMagic));
    assert_eq!(error.to_string(), "invalid FDT magic number at offset 0");
}

#[test]
fn a_version_below_the_supported_one_is_refused() {
    let mut dtb = valid();
    set_field(&mut dtb, 5, 16);
    let error = Fdt::new(&dtb).unwrap_err();
    assert!(matches!(error.kind, FdtErrorKind::UnsupportedVersion(16)));
    assert_eq!(error.offset(), 20);
    assert_eq!(error.to_string(), "the FDT version 16 is not supported at offset 20");
}

#[test]
fn a_last_compatible_version_above_the_supported_one_is_refused() {
    let mut dtb = valid();
    set_field(&mut dtb, 5, 19);
    set_field(&mut dtb, 6, 18);
    let error = Fdt::new(&dtb).unwrap_err();
    assert!(matches!(error.kind, FdtErrorKind::UnsupportedVersion(19)));
}

#[test]
fn a_total_size_other_than_the_length_is_refused() {
    let mut dtb = valid();
    dtb.push(0);
    let error = Fdt::new(&dtb).unwrap_err();
    assert!(matches!(error.kind, FdtErrorKind::InvalidLength));
    assert_eq!(error.offset(), 4);
}

#[test]
fn a_structure_block_before_the_reservations_is_refused() {
    let mut dtb = valid();
    set_field(&mut dtb, 4, 60);
    let error = Fdt::new(&dtb).unwrap_err();
    assert!(matches!(error.kind, FdtErrorKind::InvalidHeader("dt_struct not after memrsvmap")));
    assert_eq!(error.offset(), 16);
    assert_eq!(
        error.to_string(),
        "FDT header has failed validation: dt_struct not after memrsvmap at offset 16"
    );
}

#[test]
fn offsets_and_sizes_beyond_the_blob_are_refused() {
    let mut dtb = valid();
    set_field(&mut dtb, 2, 1000);
    let error = Fdt::new(&dtb).unwrap_err();
    assert!(matches!(error.kind, FdtErrorKind::InvalidHeader("struct offset out of bounds")));

    let mut dtb = valid();
    set_field(&mut dtb, 3, 1000);
    let error = Fdt::new(&dtb).unwrap_err();
    assert!(matches!(error.kind, FdtErrorKind::InvalidHeader("strings offset out of bounds")));

    let mut dtb = valid();
    set_field(&mut dtb, 9, 0xffff_ffff);
    let error = Fdt::new(&dtb).unwrap_err();
    assert!(matches!(error.kind, FdtErrorKind::InvalidHeader("struct block overflows")));
    assert_eq!(error.offset(), 36);

    let mut dtb = valid();
    set_field(&mut dtb, 8, 1);
    let error = Fdt::new(&dtb).unwrap_err();
    assert!(matches!(error.kind, FdtErrorKind::InvalidHeader("strings block overflows")));
    assert_eq!(error.offset(), 32);

    let mut dtb = valid();
    set_field(&mut dtb, 3, 60);
    let error = Fdt::new(&dtb).unwrap_err();
    assert!(matches!(
        error.kind,
        FdtErrorKind::InvalidHeader("strings block not after struct block")
    ));
    assert_eq!(error.offset(), 12);
}

#[test]
fn tokens_have_their_values() {
    assert_eq!(FdtToken::try_from(1), Ok(FdtToken::BeginNode));
    assert_eq!(FdtToken::try_from(2), Ok(FdtToken::EndNode));
    assert_eq!(FdtToken::try_from(3), Ok(FdtToken::Prop));
    assert_eq!(FdtToken::try_from(4), Ok(FdtToken::Nop));
    assert_eq!(FdtToken::try_from(9), Ok(FdtToken::End));
    assert_eq!(FdtToken::try_from(5), Err(5));
}

#[test]
fn the_root_has_to_begin_a_node() {
    let dtb = blob(&tokens(&[4, 1, 0, 2, 9]), &[]);
    let fdt = Fdt::new(&dtb).unwrap();
    let error = fdt.root().err().unwrap();
    assert!(matches!(error.kind, FdtErrorKind::BadToken(1)));
    assert_eq!(error.offset(), 56);

    let dtb = blob(&tokens(&[7, 0, 2, 9]), &[]);
    let fdt = Fdt::new(&dtb).unwrap();
    let error = fdt.root().err().unwrap();
    assert!(matches!(error.kind, FdtErrorKind::BadToken(7)));
    assert_eq!(error.to_string(), "bad FDT token: 0x7 at offset 56");
    assert!(matches!(fdt.find_node("/"), Some(Err(_))));
}

#[test]
fn nops_are_passed_over() {
    // root { NOP prop NOP child NOP }
    let mut structure = tokens(&[1, 0, 4, 3, 4, 0]);
    structure.extend_from_slice(&[1, 2, 3, 4]);
    structure.extend_from_slice(&tokens(&[4, 1]));
    structure.extend_from_slice(b"kid\0");
    structure.extend_from_slice(&tokens(&[4, 2, 4, 2, 9]));
    let dtb = blob(&structure, b"p\0");
    let fdt = Fdt::new(&dtb).unwrap();
    let root = fdt.root().unwrap();

    let mut props = root.properties();
    let p = props.next().unwrap().unwrap();
    assert_eq!(p.name(), "p");
    assert_eq!(p.value(), &[1, 2, 3, 4]);
    assert!(props.next().is_none());
    assert!(props.next().is_none());

    let mut kids = root.children();
    assert_eq!(kids.next().unwrap().unwrap().name().unwrap(), "kid");
    assert!(kids.next().is_none());
}

#[test]
fn names_are_padded_to_four_bytes() {
    // "abcd" and its terminator take eight bytes, "abc" takes four.
    let mut structure = tokens(&[1, 0, 1]);
    structure.extend_from_slice(b"abcd\0\0\0\0");
    structure.extend_from_slice(&tokens(&[2, 1]));
    structure.extend_from_slice(b"abc\0");
    structure.extend_from_slice(&tokens(&[2, 2, 9]));
    let dtb = blob(&structure, &[]);
    let fdt = Fdt::new(&dtb).unwrap();
    let root = fdt.root().unwrap();
    let mut kids = root.children();
    let first = kids.next().unwrap().unwrap();
    assert_eq!(first.name().unwrap(), "abcd");
    assert_eq!(first.offset(), 64);
    let second = kids.next().unwrap().unwrap();
    assert_eq!(second.name().unwrap(), "abc");
    assert_eq!(second.offset(), 80);
    assert!(kids.next().is_none());
}

#[test]
fn an_iteration_stays_ended_after_an_error() {
    // The second token among the children stands for nothing.
    let mut structure = tokens(&[1, 0, 1]);
    structure.extend_from_slice(b"ok\0\0");
    structure.extend_from_slice(&tokens(&[2, 0x55, 2, 9]));
    let dtb = blob(&structure, &[]);
    let fdt = Fdt::new(&dtb).unwrap();
    let root = fdt.root().unwrap();
    let mut kids = root.children();
    assert_eq!(kids.next().unwrap().unwrap().name().unwrap(), "ok");
    let error = kids.next().unwrap().err().unwrap();
    assert!(matches!(error.kind, FdtErrorKind::BadToken(0x55)));
    assert!(kids.next().is_none());
    assert!(kids.next().is_none());

    let error = root.child("missing").err().unwrap();
    assert!(matches!(error.kind, FdtErrorKind::BadToken(0x55)));
    assert!(fdt.find_node("/missing").is_none());
    assert_eq!(root.child("ok").unwrap().unwrap().name().unwrap(), "ok");
}

#[test]
fn a_property_after_a_child_is_an_error() {
    let mut structure = tokens(&[1, 0, 1]);
    structure.extend_from_slice(b"kid\0");
    structure.extend_from_slice(&tokens(&[2, 3, 0, 0, 2, 9]));
    let dtb = blob(&structure, b"p\0");
    let fdt = Fdt::new(&dtb).unwrap();
    let root = fdt.root().unwrap();
    let mut kids = root.children();
    assert!(kids.next().unwrap().is_ok());
    let error = kids.next().unwrap().err().unwrap();
    assert!(matches!(error.kind, FdtErrorKind::BadToken(3)));
    assert!(kids.next().is_none());
}

#[test]
fn a_structure_block_that_ends_early_is_an_error() {
    // The node is never closed: End comes in place of EndNode.
    let dtb = blob(&tokens(&[1, 0, 9]), &[]);
    let fdt = Fdt::new(&dtb).unwrap();
    let root = fdt.root().unwrap();
    let mut kids = root.children();
    let error = kids.next().unwrap().err().unwrap();
    assert!(matches!(error.kind, FdtErrorKind::BadToken(9)));

    // The blob ends inside the node.
    let dtb = blob(&tokens(&[1, 0]), &[]);
    let fdt = Fdt::new(&dtb).unwrap();
    let root = fdt.root().unwrap();
    let mut kids = root.children();
    let error = kids.next().unwrap().err().unwrap();
    assert!(matches!(error.kind, FdtErrorKind::InvalidLength));
    assert_eq!(error.offset(), 64);
}

#[test]
fn a_value_beyond_the_blob_is_an_error() {
    let dtb = blob(&tokens(&[1, 0, 3, 100, 0, 2, 9]), b"p\0");
    let fdt = Fdt::new(&dtb).unwrap();
    let root = fdt.root().unwrap();
    let mut props = root.properties();
    let error = props.next().unwrap().err().unwrap();
    assert!(matches!(error.kind, FdtErrorKind::InvalidLength));
    assert_eq!(error.offset(), 56 + 8 + 12);
    assert!(props.next().is_none());
    assert!(root.property("p").is_err());
}

#[test]
fn a_name_outside_the_strings_block_is_an_error() {
    let mut structure = tokens(&[1, 0, 3, 4, 2]);
    structure.extend_from_slice(&[1, 2, 3, 4]);
    structure.extend_from_slice(&tokens(&[2, 9]));
    let dtb = blob(&structure, b"p\0");
    let fdt = Fdt::new(&dtb).unwrap();
    let root = fdt.root().unwrap();
    let error = root.properties().next().unwrap().err().unwrap();
    assert!(matches!(error.kind, FdtErrorKind::InvalidLength));
    assert_eq!(error.offset(), dtb.len());
}

#[test]
fn names_have_to_be_terminated_text() {
    // The property name has no terminator inside the strings block.
    let mut structure = tokens(&[1, 0, 3, 0, 0, 2, 9]);
    let dtb = blob(&structure, b"p");
    let fdt = Fdt::new(&dtb).unwrap();
    let error = fdt.root().unwrap().properties().next().unwrap().err().unwrap();
    assert!(matches!(error.kind, FdtErrorKind::InvalidString));
    assert_eq!(error.to_string(), format!("invalid string in FDT at offset {}", dtb.len() - 1));

    // The node name is no UTF-8.
    structure = tokens(&[1, 0, 1]);
    structure.extend_from_slice(&[0xff, 0xfe, 0, 0]);
    structure.extend_from_slice(&tokens(&[2, 2, 9]));
    let dtb = blob(&structure, &[]);
    let fdt = Fdt::new(&dtb).unwrap();
    let kid = fdt.root().unwrap().children().next().unwrap().unwrap();
    let error = kid.name().err().unwrap();
    assert!(matches!(error.kind, FdtErrorKind::InvalidString));
    assert_eq!(error.offset(), 68);
}

#[test]
fn values_are_read_by_their_length() {
    let mut structure = tokens(&[1, 0, 3, 4, 0]);
    structure.extend_from_slice(&[0x12, 0x34, 0x56, 0x78]);
    structure.extend_from_slice(&tokens(&[3, 3, 2]));
    structure.extend_from_slice(&[b'h', b'i', 0, 0]);
    structure.extend_from_slice(&tokens(&[3, 5, 4]));
    structure.extend_from_slice(&[b'a', 0, b'b', 0, 0xff, 0, 0, 0]);
    structure.extend_from_slice(&tokens(&[2, 9]));
    let dtb = blob(&structure, b"a\0b\0c\0");
    let fdt = Fdt::new(&dtb).unwrap();
    let root = fdt.root().unwrap();

    let a = root.property("a").unwrap().unwrap();
    assert_eq!(a.as_u32().unwrap(), 0x12345678);
    let error = a.as_u64().unwrap_err();
    assert!(matches!(error.kind, FdtErrorKind::InvalidLength));
    assert_eq!(error.offset(), 56 + 8 + 12);
    assert!(matches!(a.as_str().unwrap_err().kind, FdtErrorKind::InvalidString));
    assert_eq!(a.value(), &[0x12, 0x34, 0x56, 0x78]);
    assert!(a.as_str_list().next().is_none());

    let b = root.property("b").unwrap().unwrap();
    assert!(matches!(b.as_u32().unwrap_err().kind, FdtErrorKind::InvalidLength));
    assert_eq!(b.as_str().unwrap(), "hi");
    let mut list = b.as_str_list();
    assert_eq!(list.next(), Some("hi"));
    assert_eq!(list.next(), None);

    // A list with garbage at its end stops there.
    let c = root.property("c").unwrap().unwrap();
    assert!(matches!(c.as_str().unwrap_err().kind, FdtErrorKind::InvalidString));
    let mut list = c.as_str_list();
    assert_eq!(list.next(), Some("a"));
    assert_eq!(list.next(), Some("b"));
    assert_eq!(list.next(), None);
    assert_eq!(list.next(), None);
}

#[test]
fn paths_pass_over_empty_names() {
    let mut structure = tokens(&[1, 0, 1]);
    structure.extend_from_slice(b"a\0\0\0");
    structure.extend_from_slice(&tokens(&[1]));
    structure.extend_from_slice(b"b\0\0\0");
    structure.extend_from_slice(&tokens(&[2, 2, 2, 9]));
    let dtb = blob(&structure, &[]);
    let fdt = Fdt::new(&dtb).unwrap();
    assert_eq!(fdt.find_node("//a//b").unwrap().unwrap().name().unwrap(), "b");
    assert_eq!(fdt.find_node("/a/b/").unwrap().unwrap().name().unwrap(), "b");
    assert_eq!(fdt.find_node("///").unwrap().unwrap().name().unwrap(), "");
    assert!(fdt.find_node("a/b").is_none());
    assert!(fdt.find_node("/b").is_none());
    assert!(fdt.find_node("/a/b/c").is_none());
}
