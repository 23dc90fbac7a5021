//! Transport constants.
// see: https://datatracker.ietf.org/doc/html/rfc1035#section-4.2

use vstd::prelude::*;

verus! {

pub const DNS_PORT: u16 = 53;

/// Largest UDP message without EDNS(0).
pub const UDP_MAX_MESSAGE_SIZE: usize = 512;

/// Largest message that the two-byte TCP length prefix can frame.
pub const TCP_MAX_MESSAGE_SIZE: usize = 65535;

/// Size of the buffers that UDP messages are received into.
pub const EDNS_STANDARD_UDP_PAYLOAD_SIZE: usize = 4096;

} // verus!
