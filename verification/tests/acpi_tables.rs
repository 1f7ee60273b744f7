use doors::ssdt::{check_ssdt_place, ssdt_signature_matches, SsdtPlace};

#[test]
fn ssdt_place_checks() {
    assert_eq!(check_ssdt_place(0, 100), SsdtPlace::NullAddress);
    assert_eq!(check_ssdt_place(0x1000, 35), SsdtPlace::TooShort(35));
    assert_eq!(check_ssdt_place(0x1000, 36), SsdtPlace::Usable);
}

#[test]
fn ssdt_signature_checks() {
    assert_eq!(ssdt_signature_matches(b"SSDT\x24\x00"), Some(true));
    assert_eq!(ssdt_signature_matches(b"DSDT\x24\x00"), Some(false));
    assert_eq!(ssdt_signature_matches(b"SSD"), None);
}
