//! Encoding of the 12-byte header.

use vstd::prelude::*;

use crate::common::header::{opcode_value, rcode_value, Header, MessageType, QueryType};
use crate::utils::{push_u16_to_u8_vec, u16_bytes};

verus! {

/// The third header byte: QR, OPCODE, AA, TC and RD.
pub open spec fn flags_byte(h: Header) -> u8 {
    ((if h.qr == MessageType::Response {
        128int
    } else {
        0int
    }) + opcode_value(h.opcode) * 8 + (if h.authoritative_answer {
        4int
    } else {
        0int
    }) + (if h.truncated {
        2int
    } else {
        0int
    }) + (if h.recursion_desired {
        1int
    } else {
        0int
    })) as u8
}

/// The fourth header byte: RA, three zero bits, RCODE.
pub open spec fn codes_byte(h: Header) -> u8 {
    ((if h.recursion_available {
        128int
    } else {
        0int
    }) + rcode_value(h.response_code)) as u8
}

/// The 12 bytes of a header; the reserved bits are zero.
pub open spec fn encoded_header(h: Header) -> Seq<u8> {
    u16_bytes(h.id) + seq![flags_byte(h), codes_byte(h)] + u16_bytes(h.questions_count)
        + u16_bytes(h.answers_count) + u16_bytes(h.authority_count) + u16_bytes(
        h.additional_count,
    )
}

pub fn encode(header: Header) -> (r: Vec<u8>)
    ensures
        r@ == encoded_header(header),
{
    let mut e: Vec<u8> = Vec::new();

    push_u16_to_u8_vec(&mut e, header.id);

    let mut flags: u8 = 0;
    if header.qr == MessageType::Response {
        flags = flags + 128;
    }
    flags = flags + match header.opcode {
        QueryType::Standard => 0,
        QueryType::Inverse => 8,
        QueryType::ServerStatusRequest => 16,
    };
    if header.authoritative_answer {
        flags = flags + 4;
    }
    if header.truncated {
        flags = flags + 2;
    }
    if header.recursion_desired {
        flags = flags + 1;
    }
    let mut codes: u8 = header.response_code.value() as u8;
    if header.recursion_available {
        codes = codes + 128;
    }
    e.push(flags);
    e.push(codes);

    push_u16_to_u8_vec(&mut e, header.questions_count);
    push_u16_to_u8_vec(&mut e, header.answers_count);
    push_u16_to_u8_vec(&mut e, header.authority_count);
    push_u16_to_u8_vec(&mut e, header.additional_count);
    assert(e@ =~= encoded_header(header));
    e
}

} // verus!
