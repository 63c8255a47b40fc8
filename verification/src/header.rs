//! The fixed 12-byte DNS message header: every field is a pure bit
//! projection of bytes 0..12 of the packet.

use vstd::prelude::*;
use crate::DnsError;
use crate::MAX_PACKET_LEN;

verus! {

/// The 12 fixed-position header fields of a DNS message.
#[derive(Debug, Clone, Copy, PartialEq, Eq)]
pub struct Header {
    pub id: u16,
    pub qr: bool,
    pub opcode: u8,
    pub aa: bool,
    pub tc: bool,
    pub rd: bool,
    pub ra: bool,
    pub z: u8,
    pub rcode: u8,
    pub qdcount: u16,
    pub ancount: u16,
    pub nscount: u16,
    pub arcount: u16,
}

/// The big-endian 16-bit value held in bytes `i` and `i + 1`.
pub open spec fn spec_be16(buf: Seq<u8>, i: int) -> u16 {
    (buf[i] as int * 256 + buf[i + 1] as int) as u16
}

/// The header that bytes 0..12 of the buffer project to.
pub open spec fn spec_header(buf: Seq<u8>) -> Header {
    Header {
        id: spec_be16(buf, 0),
        qr: buf[2] & 0x80 == 0x80,
        opcode: (buf[2] & 0x78) >> 3,
        aa: buf[2] & 0x04 == 0x04,
        tc: buf[2] & 0x02 == 0x02,
        rd: buf[2] & 0x01 == 0x01,
        ra: buf[3] & 0x80 == 0x80,
        z: (buf[3] & 0x70) >> 4,
        rcode: buf[3] & 0x0f,
        qdcount: spec_be16(buf, 4),
        ancount: spec_be16(buf, 6),
        nscount: spec_be16(buf, 8),
        arcount: spec_be16(buf, 10),
    }
}

/// The message ID: bytes 0..2, big-endian.
pub fn get_id_from_header(packet: &[u8; MAX_PACKET_LEN]) -> (r: u16)
    ensures
        r == spec_header(packet@).id,
{
    (packet[0] as u16) * 256 + (packet[1] as u16)
}

/// The query/response bit: bit 7 of byte 2. False for a query, true for a
/// response per the wire format's QR flag.
pub fn get_qr_from_header(packet: &[u8; MAX_PACKET_LEN]) -> (r: bool)
    ensures
        r == spec_header(packet@).qr,
{
    packet[2] & 0x80 == 0x80
}

/// The operation code: bits 6..3 of byte 2.
pub fn get_op_code_from_header(packet: &[u8; MAX_PACKET_LEN]) -> (r: u8)
    ensures
        r == spec_header(packet@).opcode,
{
    (packet[2] & 0x78) >> 3
}

/// The authoritative-answer bit: bit 2 of byte 2.
pub fn get_aa_from_header(packet: &[u8; MAX_PACKET_LEN]) -> (r: bool)
    ensures
        r == spec_header(packet@).aa,
{
    packet[2] & 0x04 == 0x04
}

/// The truncation bit: bit 1 of byte 2.
pub fn get_tc_from_header(packet: &[u8; MAX_PACKET_LEN]) -> (r: bool)
    ensures
        r == spec_header(packet@).tc,
{
    packet[2] & 0x02 == 0x02
}

/// The recursion-desired bit: bit 0 of byte 2.
pub fn get_rd_from_header(packet: &[u8; MAX_PACKET_LEN]) -> (r: bool)
    ensures
        r == spec_header(packet@).rd,
{
    packet[2] & 0x01 == 0x01
}

/// The recursion-available bit: bit 7 of byte 3.
pub fn get_ra_from_header(packet: &[u8; MAX_PACKET_LEN]) -> (r: bool)
    ensures
        r == spec_header(packet@).ra,
{
    packet[3] & 0x80 == 0x80
}

/// The reserved Z field: bits 6..4 of byte 3, decoded but never validated.
pub fn get_z_from_header(packet: &[u8; MAX_PACKET_LEN]) -> (r: u8)
    ensures
        r == spec_header(packet@).z,
{
    (packet[3] & 0x70) >> 4
}

/// The response code: bits 3..0 of byte 3.
pub fn get_r_code_from_header(packet: &[u8; MAX_PACKET_LEN]) -> (r: u8)
    ensures
        r == spec_header(packet@).rcode,
{
    packet[3] & 0x0f
}

/// The number of question entries: bytes 4..6, big-endian.
pub fn get_qd_count_from_header(packet: &[u8; MAX_PACKET_LEN]) -> (r: u16)
    ensures
        r == spec_header(packet@).qdcount,
{
    (packet[4] as u16) * 256 + (packet[5] as u16)
}

/// The number of answer records: bytes 6..8, big-endian.
pub fn get_an_count_from_header(packet: &[u8; MAX_PACKET_LEN]) -> (r: u16)
    ensures
        r == spec_header(packet@).ancount,
{
    (packet[6] as u16) * 256 + (packet[7] as u16)
}

/// The number of authority records: bytes 8..10, big-endian.
pub fn get_ns_count_from_header(packet: &[u8; MAX_PACKET_LEN]) -> (r: u16)
    ensures
        r == spec_header(packet@).nscount,
{
    (packet[8] as u16) * 256 + (packet[9] as u16)
}

/// The number of additional records: bytes 10..12, big-endian.
pub fn get_ar_count_from_header(packet: &[u8; MAX_PACKET_LEN]) -> (r: u16)
    ensures
        r == spec_header(packet@).arcount,
{
    (packet[10] as u16) * 256 + (packet[11] as u16)
}

/// Decode the whole header. Fails with `TruncatedHeader` exactly when the
/// logical length is under 12 bytes; any 12 bytes decode, reserved bit
/// patterns included, so callers can decide policy themselves.
pub fn decode_header(packet: &[u8; MAX_PACKET_LEN], logical_length: usize) -> (r: Result<
    Header,
    DnsError,
>)
    requires
        logical_length <= MAX_PACKET_LEN,
    ensures
        logical_length < 12 ==> r == Err::<Header, DnsError>(DnsError::TruncatedHeader),
        logical_length >= 12 ==> r == Ok::<Header, DnsError>(spec_header(packet@)),
{
    if logical_length < 12 {
        return Err(DnsError::TruncatedHeader);
    }
    Ok(
        Header {
            id: get_id_from_header(packet),
            qr: get_qr_from_header(packet),
            opcode: get_op_code_from_header(packet),
            aa: get_aa_from_header(packet),
            tc: get_tc_from_header(packet),
            rd: get_rd_from_header(packet),
            ra: get_ra_from_header(packet),
            z: get_z_from_header(packet),
            rcode: get_r_code_from_header(packet),
            qdcount: get_qd_count_from_header(packet),
            ancount: get_an_count_from_header(packet),
            nscount: get_ns_count_from_header(packet),
            arcount: get_ar_count_from_header(packet),
        },
    )
}

} // verus!
