use cadmus::util::decimal::decimal_string;
use cadmus::util::encoding_util::{fm_string_decrypt, get_int, get_path_int};

#[test]
fn get_int_reads_big_endian() {
    assert_eq!(get_int(&[]), 0);
    assert_eq!(get_int(&[7]), 7);
    assert_eq!(get_int(&[1, 0]), 256);
    assert_eq!(get_int(&[0x12, 0x34, 0x56, 0x78]), 0x1234_5678);
}

#[test]
fn get_path_int_by_length() {
    assert_eq!(get_path_int(&[5]), 5);
    assert_eq!(get_path_int(&[0x80, 0x01]), 0x81);
    assert_eq!(get_path_int(&[0x81, 0x02]), 0x80 + 256 + 2);
    assert_eq!(get_path_int(&[0xFF, 0x01, 0x02]), 0xC000 + 0x0102);
    assert_eq!(get_path_int(&[1, 2, 3, 4]), 0);
}

#[test]
fn decrypt_xors_each_byte() {
    let plain = "admin";
    let encrypted: Vec<u8> = plain.bytes().map(|b| b ^ 0x5A).collect();
    assert_eq!(fm_string_decrypt(&encrypted), "admin");
    assert_eq!(fm_string_decrypt(&[]), "");
}

#[test]
fn decimal_writes_numbers() {
    assert_eq!(decimal_string(0), "0");
    assert_eq!(decimal_string(7), "7");
    assert_eq!(decimal_string(129), "129");
    assert_eq!(decimal_string(49152), "49152");
}
