use ble_bridge::{doubled_sum, rust_add, wire_string, wire_string_list};

#[test]
fn wire_strings_decode_utf8() {
    assert_eq!(wire_string("héllo".as_bytes()), "héllo");
    assert_eq!(wire_string(&[0x61, 0xff, 0x62]), "a\u{FFFD}b");
    assert_eq!(wire_string(&[]), "");
    let list = wire_string_list(&vec![b"one".to_vec(), "zwei".as_bytes().to_vec(), vec![]]);
    assert_eq!(list, vec!["one".to_string(), "zwei".to_string(), "".to_string()]);
}

#[test]
fn integer_helpers() {
    assert_eq!(rust_add(2, 3), 5);
    assert_eq!(rust_add(-7, 3), -4);
    assert_eq!(doubled_sum(2, 3), 10);
    assert_eq!(doubled_sum(-1, -2), -6);
}
