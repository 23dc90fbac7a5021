//! Decoding of the 12-byte header.

use vstd::prelude::*;

use crate::common::header::{
    opcode_from_value, rcode_from_value, Header, MessageType, QueryType, ResponseCode,
};
use crate::decoder::DecodingError;
use crate::utils::{be16, concat_two_u8s};

verus! {

/// The header that 12 bytes stand for, or why they stand for none. Reserved
/// bits are ignored.
#[verifier::opaque]
pub open spec fn header_of(b: Seq<u8>) -> Result<Header, DecodingError>
    recommends
        b.len() == 12,
{
    let flags = b[2];
    let codes = b[3];
    let opcode = (flags / 8) % 16;
    let rcode = codes % 16;
    match opcode_from_value(opcode) {
        None => Err(DecodingError::InvalidHeaderQueryType(opcode)),
        Some(op) => match rcode_from_value(rcode) {
            None => Err(DecodingError::InvalidHeaderResponseCode(rcode)),
            Some(rc) => Ok(
                Header {
                    id: be16(b[0], b[1]) as u16,
                    qr: if flags >= 128 {
                        MessageType::Response
                    } else {
                        MessageType::Query
                    },
                    opcode: op,
                    authoritative_answer: (flags / 4) % 2 == 1,
                    truncated: (flags / 2) % 2 == 1,
                    recursion_desired: flags % 2 == 1,
                    recursion_available: codes >= 128,
                    reserved: false,
                    response_code: rc,
                    questions_count: be16(b[4], b[5]) as u16,
                    answers_count: be16(b[6], b[7]) as u16,
                    authority_count: be16(b[8], b[9]) as u16,
                    additional_count: be16(b[10], b[11]) as u16,
                },
            ),
        },
    }
}

fn query_type_from_bits(opcode: u8) -> (r: Option<QueryType>)
    ensures
        r == opcode_from_value(opcode),
{
    match opcode {
        0 => Some(QueryType::Standard),
        1 => Some(QueryType::Inverse),
        2 => Some(QueryType::ServerStatusRequest),
        _ => None,
    }
}

fn response_code_from_bits(rcode: u8) -> (r: Option<ResponseCode>)
    ensures
        r == rcode_from_value(rcode),
{
    match rcode {
        0 => Some(ResponseCode::NoError),
        1 => Some(ResponseCode::FormatError),
        2 => Some(ResponseCode::ServerFailure),
        3 => Some(ResponseCode::NameError),
        4 => Some(ResponseCode::NotImplemented),
        5 => Some(ResponseCode::Refused),
        _ => None,
    }
}

pub fn decode(buffer: &[u8; 12]) -> (r: Result<Header, DecodingError>)
    ensures
        r == header_of(buffer@),
{
    reveal(header_of);
    let flags = buffer[2];
    let codes = buffer[3];

    let qr = if flags >= 128 {
        MessageType::Response
    } else {
        MessageType::Query
    };
    let opcode_bits = (flags / 8) % 16;
    let opcode = match query_type_from_bits(opcode_bits) {
        Some(op) => op,
        None => return Err(DecodingError::InvalidHeaderQueryType(opcode_bits)),
    };
    let rcode_bits = codes % 16;
    let response_code = match response_code_from_bits(rcode_bits) {
        Some(rc) => rc,
        None => return Err(DecodingError::InvalidHeaderResponseCode(rcode_bits)),
    };

    Ok(
        Header {
            id: concat_two_u8s(buffer[0], buffer[1]),
            qr,
            opcode,
            authoritative_answer: (flags / 4) % 2 == 1,
            truncated: (flags / 2) % 2 == 1,
            recursion_desired: flags % 2 == 1,
            recursion_available: codes >= 128,
            reserved: false,
            response_code,
            questions_count: concat_two_u8s(buffer[4], buffer[5]),
            answers_count: concat_two_u8s(buffer[6], buffer[7]),
            authority_count: concat_two_u8s(buffer[8], buffer[9]),
            additional_count: concat_two_u8s(buffer[10], buffer[11]),
        },
    )
}

} // verus!

verus! {

/// Encoding a header and decoding the bytes gives the header back, its
/// reserved bit cleared.
pub proof fn lemma_header_round_trip(h: Header)
    ensures
        header_of(crate::encoder::header::encoded_header(h)) == Ok::<Header, DecodingError>(
            Header { reserved: false, ..h },
        ),
{
    reveal(header_of);
    let b = crate::encoder::header::encoded_header(h);
    let f = crate::encoder::header::flags_byte(h);
    let c = crate::encoder::header::codes_byte(h);
    assert(b[2] == f && b[3] == c);
    assert((f / 8) % 16 == crate::common::header::opcode_value(h.opcode));
    assert(c % 16 == crate::common::header::rcode_value(h.response_code));
    assert(be16(b[0], b[1]) == h.id);
    assert(be16(b[4], b[5]) == h.questions_count);
    assert(be16(b[6], b[7]) == h.answers_count);
    assert(be16(b[8], b[9]) == h.authority_count);
    assert(be16(b[10], b[11]) == h.additional_count);
}

} // verus!
