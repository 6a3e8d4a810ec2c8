use rustlab::hex_dump::hex_dump;

#[test]
fn hex_dump_prints_each_byte_in_upper_case_hex() {
    let signature: Vec<u8> = vec![0x0A, 0xFF, 0x10, 0x00, 0x7b];
    assert_eq!(hex_dump(&signature), "A FF 10 0 7B ");
}

#[test]
fn hex_dump_of_nothing_is_empty() {
    assert_eq!(hex_dump(&[]), "");
}
