//! The fixed 12-byte message header.
/*
    Header format:
                                    1  1  1  1  1  1
      0  1  2  3  4  5  6  7  8  9  0  1  2  3  4  5
    +--+--+--+--+--+--+--+--+--+--+--+--+--+--+--+--+
    |                      ID                       |
    +--+--+--+--+--+--+--+--+--+--+--+--+--+--+--+--+
    |QR|   Opcode  |AA|TC|RD|RA|   Z    |   RCODE   |
    +--+--+--+--+--+--+--+--+--+--+--+--+--+--+--+--+
    |                    QDCOUNT                    |
    +--+--+--+--+--+--+--+--+--+--+--+--+--+--+--+--+
    |                    ANCOUNT                    |
    +--+--+--+--+--+--+--+--+--+--+--+--+--+--+--+--+
    |                    NSCOUNT                    |
    +--+--+--+--+--+--+--+--+--+--+--+--+--+--+--+--+
    |                    ARCOUNT                    |
    +--+--+--+--+--+--+--+--+--+--+--+--+--+--+--+--+

    see: https://datatracker.ietf.org/doc/html/rfc1035#section-4.1.1
*/

use vstd::prelude::*;

verus! {

pub const HEADER_BIT_SIZE: usize = 96;

pub type MessageId = u16;

#[derive(Debug, PartialEq, Eq, Structural, Clone, Copy)]
pub enum MessageType {
    Query,
    Response,
}

#[derive(Debug, PartialEq, Eq, Structural, Clone, Copy)]
pub struct Header {
    pub id: MessageId,
    pub qr: MessageType,
    pub opcode: QueryType,
    pub authoritative_answer: bool,
    pub truncated: bool,
    pub recursion_desired: bool,
    pub recursion_available: bool,
    pub reserved: bool,  // should always be false
    pub response_code: ResponseCode,
    pub questions_count: u16,
    pub answers_count: u16,
    pub authority_count: u16,
    pub additional_count: u16,
}

/// The OPCODE field.
#[derive(Debug, PartialEq, Eq, Structural, Clone, Copy)]
pub enum QueryType {
    Standard,
    Inverse,
    ServerStatusRequest,
}

/// The four-bit OPCODE value of a query type.
pub open spec fn opcode_value(q: QueryType) -> u8 {
    match q {
        QueryType::Standard => 0,
        QueryType::Inverse => 1,
        QueryType::ServerStatusRequest => 2,
    }
}

/// The query type with a given OPCODE value, if there is one.
pub open spec fn opcode_from_value(v: u8) -> Option<QueryType> {
    if v == 0 {
        Some(QueryType::Standard)
    } else if v == 1 {
        Some(QueryType::Inverse)
    } else if v == 2 {
        Some(QueryType::ServerStatusRequest)
    } else {
        None
    }
}

#[derive(Debug, PartialEq, Eq, Structural, Clone, Copy)]
pub enum ResponseCode {
    NoError,
    FormatError,
    ServerFailure,
    NameError,
    NotImplemented,
    Refused,
}

/// The four-bit RCODE value of a response code.
pub open spec fn rcode_value(r: ResponseCode) -> u16 {
    match r {
        ResponseCode::NoError => 0,
        ResponseCode::FormatError => 1,
        ResponseCode::ServerFailure => 2,
        ResponseCode::NameError => 3,
        ResponseCode::NotImplemented => 4,
        ResponseCode::Refused => 5,
    }
}

/// The response code with a given RCODE value, if there is one.
pub open spec fn rcode_from_value(v: u8) -> Option<ResponseCode> {
    if v == 0 {
        Some(ResponseCode::NoError)
    } else if v == 1 {
        Some(ResponseCode::FormatError)
    } else if v == 2 {
        Some(ResponseCode::ServerFailure)
    } else if v == 3 {
        Some(ResponseCode::NameError)
    } else if v == 4 {
        Some(ResponseCode::NotImplemented)
    } else if v == 5 {
        Some(ResponseCode::Refused)
    } else {
        None
    }
}

impl ResponseCode {
    pub fn value(&self) -> (r: u16)
        ensures
            r == rcode_value(*self),
    {
        match self {
            Self::NoError => 0,
            Self::FormatError => 1,
            Self::ServerFailure => 2,
            Self::NameError => 3,
            Self::NotImplemented => 4,
            Self::Refused => 5,
        }
    }
}

/// Splits the header's 12 bytes off the front of a message.
pub fn extract_header_bits_from_buffer(buffer: &[u8]) -> (r: (&[u8], &[u8]))
    requires
        buffer@.len() >= HEADER_BIT_SIZE / 8,
    ensures
        r.0@ == buffer@.subrange(0, 12),
        r.1@ == buffer@.subrange(12, buffer@.len() as int),
{
    // divide by 8 since buffer is composed of 8 bits unsigned integers
    buffer.split_at(HEADER_BIT_SIZE / 8)
}

} // verus!
