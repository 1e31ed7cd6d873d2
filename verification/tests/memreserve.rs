use ritm_device_tree::fdt::Fdt;
use ritm_device_tree::model::DeviceTree;
use ritm_device_tree::MemoryReservation;

/// A blob with an empty root and two memory reservations, written by hand.
fn test_memreserve_dtb() -> Vec<u8> {
    let mut out = Vec::new();
    for field in [0xd00d_feedu32, 104, 88, 104, 40, 17, 16, 0, 0, 16] {
        out.extend_from_slice(&field.to_be_bytes());
    }
    for value in [0x1000u64, 0x100, 0x2000, 0x200, 0, 0] {
        out.extend_from_slice(&value.to_be_bytes());
    }
    for token in [1u32, 0, 2, 9] {
        out.extend_from_slice(&token.to_be_bytes());
    }
    out
}

#[test]
fn memreserve() {
    let dtb = test_memreserve_dtb();
    let fdt = Fdt::new(&dtb).unwrap();

    let mut reservations = Vec::new();
    let mut iter = fdt.memory_reservations();
    while let Some(reservation) = iter.next() {
        reservations.push(reservation);
    }
    assert!(iter.next().is_none());
    assert_eq!(
        reservations,
        &[
            MemoryReservation::new(0x1000, 0x100),
            MemoryReservation::new(0x2000, 0x200)
        ]
    );

    let tree = DeviceTree::from_fdt(&fdt).unwrap();
    assert_eq!(tree.memory_reservations, reservations);

    let dtb2 = tree.to_dtb();
    assert_eq!(dtb, &dtb2[..]);

    let dts = fdt.to_string().unwrap();
    assert!(dts.contains("/memreserve/ 0x1000 0x100;"));
    assert!(dts.contains("/memreserve/ 0x2000 0x200;"));
}

#[test]
fn reservation_keeps_address_and_size() {
    let r = MemoryReservation::new(0x1000, 0x100);
    assert_eq!(r.address(), 0x1000);
    assert_eq!(r.size(), 0x100);
}

#[test]
fn reservations_end_at_the_pair_of_zeros() {
    let mut dtb = test_memreserve_dtb();
    // Turn the second reservation into the terminator.
    for byte in dtb[56..72].iter_mut() {
        *byte = 0;
    }
    let fdt = Fdt::new(&dtb).unwrap();
    let mut iter = fdt.memory_reservations();
    assert_eq!(iter.next(), Some(MemoryReservation::new(0x1000, 0x100)));
    assert_eq!(iter.next(), None);
    assert_eq!(iter.next(), None);
}

#[test]
fn text_lists_reservations_before_the_tree() {
    let dtb = test_memreserve_dtb();
    let fdt = Fdt::new(&dtb).unwrap();
    assert_eq!(
        fdt.to_string().unwrap(),
        "/dts-v1/;\n/memreserve/ 0x1000 0x100;\n/memreserve/ 0x2000 0x200;\n\n/ {\n};\n"
    );
}
