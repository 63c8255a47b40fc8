use dns_decoder::header::get_aa_from_header;
use dns_decoder::header::get_an_count_from_header;
use dns_decoder::header::get_ar_count_from_header;
use dns_decoder::header::get_id_from_header;
use dns_decoder::header::get_ns_count_from_header;
use dns_decoder::header::get_op_code_from_header;
use dns_decoder::header::get_qd_count_from_header;
use dns_decoder::header::get_qr_from_header;
use dns_decoder::header::get_r_code_from_header;
use dns_decoder::header::get_ra_from_header;
use dns_decoder::header::get_rd_from_header;
use dns_decoder::header::get_tc_from_header;
use dns_decoder::header::get_z_from_header;
use dns_decoder::MAX_PACKET_LEN;

fn make_test_packet() -> [u8; MAX_PACKET_LEN] {
    let mut buf: [u8; MAX_PACKET_LEN] = [0; MAX_PACKET_LEN];
    let test_query = [
        0x92_u8, 0xd8_u8, 0x01_u8, 0x20_u8, 0x00_u8, 0x01_u8, 0x00_u8, 0x00_u8, 0x00_u8, 0x00_u8,
        0x00_u8, 0x00_u8, 0x06_u8, 0x67_u8, 0x6f_u8, 0x6f_u8, 0x67_u8, 0x6c_u8, 0x65_u8, 0x03_u8,
        0x63_u8, 0x6f_u8, 0x6d_u8, 0x00_u8, 0x00_u8, 0x01_u8, 0x00_u8, 0x01_u8,
    ];

    // 00000000  92 d8 01 20 00 01 00 00  00 00 00 00 06 67 6f 6f  |... .........goo|
    // 00000010  67 6c 65 03 63 6f 6d 00  00 01 00 01              |gle.com.....|
    // 0000001c

    buf[..test_query.len()].copy_from_slice(&test_query[..]);
    buf
}

#[test]
fn test_get_id() {
    let packet = make_test_packet();
    assert_eq!(get_id_from_header(&packet), 37592)
}

#[test]
fn test_get_qr() {
    let packet = make_test_packet();
    assert!(!get_qr_from_header(&packet))
}

#[test]
fn test_get_aa() {
    let packet = make_test_packet();
    assert!(!get_aa_from_header(&packet))
}

#[test]
fn test_get_tc() {
    let packet = make_test_packet();
    assert!(!get_tc_from_header(&packet))
}

#[test]
fn test_get_rd() {
    let packet = make_test_packet();
    assert!(get_rd_from_header(&packet))
}

#[test]
fn test_get_ra() {
    let packet = make_test_packet();
    assert!(!get_ra_from_header(&packet))
}

#[test]
fn test_get_r_code() {
    let packet = make_test_packet();
    assert_eq!(get_r_code_from_header(&packet), 0)
}

#[test]
fn test_get_z_code() {
    // byte 3 is 0x20: bits 6..4 hold 0b010
    let packet = make_test_packet();
    assert_eq!(get_z_from_header(&packet), 2)
}

#[test]
fn test_get_qd_count() {
    let packet = make_test_packet();
    assert_eq!(get_qd_count_from_header(&packet), 1)
}

#[test]
fn test_get_an_count() {
    let packet = make_test_packet();
    assert_eq!(get_an_count_from_header(&packet), 0)
}

#[test]
fn test_get_ns_count() {
    let packet = make_test_packet();
    assert_eq!(get_an_count_from_header(&packet), 0)
}

#[test]
fn test_get_ar_count() {
    let packet = make_test_packet();
    assert_eq!(get_ar_count_from_header(&packet), 0)
}

#[test]
fn test_get_op_code() {
    // byte 2 is 0x01: only the RD bit is set, the opcode bits 6..3 are 0
    let packet = make_test_packet();
    assert_eq!(get_op_code_from_header(&packet), 0)
}
