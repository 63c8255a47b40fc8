//! Decoder for DNS messages received over UDP: the 12-byte header with its
//! flag bits and counts, and the domain names of the question section,
//! including RFC 1035 name compression, with bounds and cycle protection
//! against malformed or hostile input.

use vstd::prelude::*;

pub mod header;
pub mod name;
pub mod question;

pub use header::Header;
pub use header::decode_header;
pub use name::DecodedName;
pub use name::decode_name;
pub use question::get_qnames;

verus! {

/// A DNS message carried over UDP is at most 512 bytes.
pub const MAX_PACKET_LEN: usize = 512;

/// The ways a decode can fail. Every failure is local and recoverable:
/// the decoder never panics on any input.
#[derive(Debug, Clone, Copy, PartialEq, Eq)]
pub enum DnsError {
    /// The buffer's logical length is shorter than the 12 header bytes.
    TruncatedHeader,
    /// A name runs past the logical end of the buffer.
    TruncatedName,
    /// A compression pointer whose target is not strictly earlier in the
    /// buffer, or that targets an offset already used as a pointer.
    InvalidPointer,
    /// More pointer jumps than any well-formed name can need.
    PointerLoopOrTooDeep,
    /// A label length byte in the reserved range 64..=191.
    ReservedLabelType,
    /// The literal labels of one name sum to more than 255 encoded octets.
    NameTooLong,
    /// A label whose bytes are not acceptable text. Labels are handed out
    /// as raw bytes, so no input currently produces this; it is kept so
    /// callers that validate text have an error to map to.
    InvalidLabelEncoding,
}

} // verus!
