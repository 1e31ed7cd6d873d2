use ritm_device_tree::error::{FdtError, FdtErrorKind};
use ritm_device_tree::model::overlay::{OverlayError, OverlayErrorKind};
use ritm_device_tree::text::{push_decimal, push_hex, push_hex_wide, push_spaces};

#[test]
fn numbers_in_hexadecimal() {
    let mut s = String::from("x");
    push_hex(&mut s, 0);
    s.push(' ');
    push_hex(&mut s, 0xf);
    s.push(' ');
    push_hex(&mut s, 0x10);
    s.push(' ');
    push_hex(&mut s, 0xdead_beef);
    s.push(' ');
    push_hex(&mut s, u64::MAX);
    assert_eq!(s, "x0 f 10 deadbeef ffffffffffffffff");
}

#[test]
fn numbers_in_two_hexadecimal_digits_at_least() {
    let mut s = String::new();
    push_hex_wide(&mut s, 0);
    s.push(' ');
    push_hex_wide(&mut s, 0xa);
    s.push(' ');
    push_hex_wide(&mut s, 0x7f);
    s.push(' ');
    push_hex_wide(&mut s, 0x123);
    assert_eq!(s, "00 0a 7f 123");
}

#[test]
fn numbers_in_decimal() {
    let mut s = String::new();
    push_decimal(&mut s, 0);
    s.push(' ');
    push_decimal(&mut s, 9);
    s.push(' ');
    push_decimal(&mut s, 10);
    s.push(' ');
    push_decimal(&mut s, 1234567890);
    s.push(' ');
    push_decimal(&mut s, u64::MAX);
    assert_eq!(s, "0 9 10 1234567890 18446744073709551615");
}

#[test]
fn blanks() {
    let mut s = String::from("a");
    push_spaces(&mut s, 0);
    s.push('b');
    push_spaces(&mut s, 3);
    s.push('c');
    assert_eq!(s, "ab   c");
}

#[test]
fn what_errors_say() {
    assert_eq!(FdtErrorKind::InvalidMagic.to_string(), "invalid FDT magic number");
    assert_eq!(
        FdtErrorKind::UnsupportedVersion(16).to_string(),
        "the FDT version 16 is not supported"
    );
    assert_eq!(FdtErrorKind::InvalidLength.to_string(), "invalid FDT length");
    assert_eq!(
        FdtErrorKind::InvalidHeader("struct block overflows").to_string(),
        "FDT header has failed validation: struct block overflows"
    );
    assert_eq!(FdtErrorKind::BadToken(0xab).to_string(), "bad FDT token: 0xab");
    assert_eq!(FdtErrorKind::InvalidOffset.to_string(), "invalid offset in FDT");
    assert_eq!(FdtErrorKind::InvalidString.to_string(), "invalid string in FDT");
    let error = FdtError::new(FdtErrorKind::InvalidOffset, 1200);
    assert_eq!(error.offset(), 1200);
    assert_eq!(error.to_string(), "invalid offset in FDT at offset 1200");
}

#[test]
fn what_overlay_errors_say() {
    assert_eq!(
        OverlayErrorKind::TargetPathNotFound.to_string(),
        "target-path property not found"
    );
    assert_eq!(
        OverlayErrorKind::TargetPathInvalid.to_string(),
        "target-path property is not a valid string"
    );
    assert_eq!(OverlayErrorKind::TargetNodeNotFound.to_string(), "target node not found");
    assert_eq!(OverlayErrorKind::SourceNodeNotFound.to_string(), "source node not found");
    assert_eq!(OverlayErrorKind::PhandleNotFound.to_string(), "phandle property not found");
    assert_eq!(OverlayErrorKind::CorruptedPhandle.to_string(), "phandle property is corrupted");
    let error = OverlayError::new(OverlayErrorKind::PhandleNotFound, String::from("frag"));
    assert_eq!(error.fragment(), "frag");
    assert_eq!(error.to_string(), "phandle property not found in fragment `frag`");
}
