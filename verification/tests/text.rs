use doors::text::{debug_hex_string, decimal_string, escape_path, path_debug, path_push, push_decimal, push_hex, push_hex2, utf8_text};

#[test]
fn decimal_numbers() {
    assert_eq!(decimal_string(0), "0");
    assert_eq!(decimal_string(1234), "1234");
    assert_eq!(decimal_string(u64::MAX), u64::MAX.to_string());
    let mut s = "com".to_string();
    push_decimal(&mut s, 3);
    assert_eq!(s, "com3");
}

#[test]
fn hexadecimal_numbers() {
    let mut s = String::new();
    push_hex(&mut s, 0);
    assert_eq!(s, "0");
    let mut t = "at ".to_string();
    push_hex(&mut t, 0xdead_beef);
    assert_eq!(t, "at deadbeef");
    let mut u = String::new();
    push_hex(&mut u, u64::MAX);
    assert_eq!(u, format!("{:x}", u64::MAX));
    let mut b = String::new();
    push_hex2(&mut b, 0x0a);
    push_hex2(&mut b, 0xff);
    assert_eq!(b, "0aff");
}

#[test]
fn debug_hex_of_optional_bytes() {
    assert_eq!(debug_hex_string(&None), "None");
    assert_eq!(debug_hex_string(&Some(vec![])), "Some([])");
    let v = Some(vec![0u8, 0x1f, 0xab]);
    assert_eq!(debug_hex_string(&v), format!("{:02x?}", v));
}

#[test]
fn escaped_paths() {
    assert_eq!(escape_path("my dir\\x"), "my\\ dir\\\\x");
}

#[test]
fn pushed_paths() {
    assert_eq!(path_push("/srv/tftp", "doors"), "/srv/tftp/doors");
    assert_eq!(path_push("/srv/tftp/", "doors"), "/srv/tftp/doors");
    assert_eq!(path_push("", "doors"), "doors");
    assert_eq!(path_push("/srv/tftp", "/abs"), "/abs");
    let mut p = std::path::PathBuf::from("/a/b");
    p.push("c d");
    assert_eq!(path_push("/a/b", "c d"), p.to_str().unwrap());
}

#[test]
fn debug_paths_are_quoted() {
    assert_eq!(path_debug("a b"), "\"a b\"");
    assert_eq!(path_debug("q\"x"), "\"q\\\"x\"");
}

#[test]
fn utf8_decoding() {
    assert_eq!(utf8_text(b"doors").as_deref(), Some("doors"));
    assert_eq!(utf8_text("é".as_bytes()).as_deref(), Some("é"));
    assert_eq!(utf8_text(&[0xff, 0xfe]), None);
}
