use zkp_login::encoding::{bytes_equal, decode_hex, encode_hex, is_all_zero};

#[test]
fn hex_reads_both_cases() {
    assert_eq!(decode_hex(b"00ff10aB"), Some(vec![0x00, 0xff, 0x10, 0xab]));
    assert_eq!(decode_hex(b"DEADBEEF"), Some(vec![0xde, 0xad, 0xbe, 0xef]));
    assert_eq!(decode_hex(b"0123456789abcdef"), Some(vec![0x01, 0x23, 0x45, 0x67, 0x89, 0xab, 0xcd, 0xef]));
    assert_eq!(decode_hex(b""), Some(vec![]));
}

#[test]
fn hex_rejects_other_text() {
    assert_eq!(decode_hex(b"0"), None);
    assert_eq!(decode_hex(b"abc"), None);
    assert_eq!(decode_hex(b"0g"), None);
    assert_eq!(decode_hex(b"g0"), None);
    assert_eq!(decode_hex(b"0x10"), None);
    assert_eq!(decode_hex(b" 10 "), None);
    assert_eq!(decode_hex(b"1/"), None);
    assert_eq!(decode_hex(b"1:"), None);
    assert_eq!(decode_hex(b"1@"), None);
    assert_eq!(decode_hex(b"1G"), None);
    assert_eq!(decode_hex(b"1`"), None);
}

#[test]
fn hex_writes_lower_case() {
    assert_eq!(encode_hex(&[0x00, 0xff, 0x10, 0xab]), b"00ff10ab".to_vec());
    assert_eq!(encode_hex(&[0x09, 0x0a, 0x9f, 0xa0]), b"090a9fa0".to_vec());
    assert_eq!(encode_hex(&[]), Vec::<u8>::new());
}

#[test]
fn hex_round_trip() {
    let all: Vec<u8> = (0..=255u8).collect();
    assert_eq!(decode_hex(&encode_hex(&all)), Some(all));
}

#[test]
fn bytes_are_compared_in_full() {
    assert!(bytes_equal(b"", b""));
    assert!(bytes_equal(b"abc", b"abc"));
    assert!(!bytes_equal(b"abc", b"abd"));
    assert!(!bytes_equal(b"abc", b"bbc"));
    assert!(!bytes_equal(b"abc", b"ab"));
    assert!(!bytes_equal(b"", b"a"));
    assert!(!bytes_equal(&[0x01, 0x02], &[0x02, 0x01]));
    assert!(!bytes_equal(&[0x80], &[0x00]));
}

#[test]
fn zero_bytes_are_recognised() {
    assert!(is_all_zero(&[]));
    assert!(is_all_zero(&[0; 32]));
    assert!(!is_all_zero(&[0, 0, 1]));
    assert!(!is_all_zero(&[0x80, 0, 0]));
}

#[test]
fn field_that_is_not_hex_is_empty() {
    assert_eq!(zkp_login::encoding::decode_field(b"0aff"), vec![0x0a, 0xff]);
    assert_eq!(zkp_login::encoding::decode_field(b"zzz"), Vec::<u8>::new());
    assert_eq!(zkp_login::encoding::decode_field(b"0af"), Vec::<u8>::new());
    assert_eq!(zkp_login::encoding::decode_field(b""), Vec::<u8>::new());
}
